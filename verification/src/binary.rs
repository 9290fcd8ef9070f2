//! The component binary format, as far as it tells which components have a world that can
//! be decoded.
//!
//! Decoding a world is only defined for components whose functions have plain names or belong
//! to a resource of their own interface, whose named types are value types or resources, and
//! in which no two interfaces with types share a name. Each of these is a fact about what the
//! outermost component imports and exports, so a nested component only counts where an
//! instance of it is exported. What is recognised here satisfies all of them; of a part of the
//! format that is not followed nothing is known, and it can be defined but not exported.

use vstd::prelude::*;
use vstd::string::*;
use vstd::utf8::*;

use crate::component::{law_sections, lemma_section_extends, slices, MAX_NESTING};
use crate::envelope::{leb_from, lemma_leb_bounds, section_at, unsigned_leb, Rejection, Sections};
use crate::text::same_bytes;

verus! {

/// What starts the name of a resource's constructor.
pub const CONSTRUCTOR: &'static str = "[constructor]";

/// What starts the name of a resource's method.
pub const METHOD: &'static str = "[method]";

/// What starts the name of a resource's static function.
pub const STATIC: &'static str = "[static]";

/// How deep types may be nested.
pub const MAX_TYPE_NESTING: usize = 100;

/// The most instances that a component may have.
pub const MAX_INSTANCES: usize = 4096;

/// What a type is.
#[derive(Clone, Copy, Debug, PartialEq, Eq, Structural)]
pub enum Sort {
    /// A function type, or one of which nothing is known.
    Other,
    /// A value type.
    Value,
    /// A resource, or a named type that is a value type or a resource.
    Named,
    /// An instance type that exports functions alone.
    Functions,
    /// An instance type that exports types too.
    Interface,
    /// A component type.
    Component,
}

/// Where an instance comes from.
#[derive(Clone, Copy, Debug, PartialEq, Eq, Structural)]
pub enum Origin {
    /// The component made it of what is recognised.
    Made,
    /// The component imports it, with an instance type that is recognised.
    Imported,
    /// Nothing is known of it.
    Unknown,
}

/// What a component exports and imports as a whole.
#[derive(Clone, Copy, Debug, PartialEq, Eq, Structural)]
pub enum Shape {
    /// Nothing.
    Empty,
    /// Component types alone, as an encoded WIT package does.
    Package,
    /// Anything else.
    Mixed,
}

/// A value type or a resource.
pub open spec fn is_nameable(sort: Sort) -> bool {
    sort == Sort::Value || sort == Sort::Named
}

/// The number at `position`, and the position behind it.
pub open spec fn number_at(bytes: Seq<u8>, position: int) -> Option<(int, int)> {
    match leb_from(bytes, position, 0) {
        Ok((value, next)) => Some((value, next)),
        Err(_) => None,
    }
}

fn read_number(bytes: &[u8], position: usize) -> (number: Option<(usize, usize)>)
    ensures
        match number {
            Some((value, next)) => number_at(bytes@, position as int) == Some((value as int, next as int)) && position
                < next <= bytes@.len(),
            None => number_at(bytes@, position as int) is None,
        },
{
    match unsigned_leb(bytes, position) {
        Ok((value, next)) => Some((value, next)),
        Err(_) => None,
    }
}

/// The position behind the number at `position`.
pub open spec fn behind_number(bytes: Seq<u8>, position: int) -> Option<int> {
    match number_at(bytes, position) {
        Some((_, next)) => Some(next),
        None => None,
    }
}

fn skip_number(bytes: &[u8], position: usize) -> (next: Option<usize>)
    ensures
        match next {
            Some(next) => behind_number(bytes@, position as int) == Some(next as int) && position < next
                <= bytes@.len(),
            None => behind_number(bytes@, position as int) is None,
        },
{
    match read_number(bytes, position) {
        Some((_, next)) => Some(next),
        None => None,
    }
}

/// The bounds of the text at `position`.
pub open spec fn text_at(bytes: Seq<u8>, position: int) -> Option<(int, int)> {
    match number_at(bytes, position) {
        Some((length, start)) => if start + length <= bytes.len() {
            Some((start, start + length))
        } else {
            None
        },
        None => None,
    }
}

fn read_text(bytes: &[u8], position: usize) -> (bounds: Option<(usize, usize)>)
    ensures
        match bounds {
            Some((start, end)) => text_at(bytes@, position as int) == Some((start as int, end as int)) && position
                < start <= end <= bytes@.len(),
            None => text_at(bytes@, position as int) is None,
        },
{
    match read_number(bytes, position) {
        Some((length, start)) => {
            if length <= bytes.len() - start {
                Some((start, start + length))
            } else {
                None
            }
        },
        None => None,
    }
}

/// The bounds of the name of an import or export at `position`, where it carries no options.
pub open spec fn name_at(bytes: Seq<u8>, position: int) -> Option<(int, int)> {
    if 0 <= position < bytes.len() && (bytes[position] == 0 || bytes[position] == 1) {
        text_at(bytes, position + 1)
    } else {
        None
    }
}

fn read_name(bytes: &[u8], position: usize) -> (bounds: Option<(usize, usize)>)
    ensures
        match bounds {
            Some((start, end)) => name_at(bytes@, position as int) == Some((start as int, end as int)) && position
                < start <= end <= bytes@.len(),
            None => name_at(bytes@, position as int) is None,
        },
{
    if position < bytes.len() && (bytes[position] == 0 || bytes[position] == 1) {
        read_text(bytes, position + 1)
    } else {
        None
    }
}

/// The position behind the value type at `position`, of which `index` bytes stand before.
pub open spec fn behind_value(bytes: Seq<u8>, position: int, index: int) -> Option<int>
    decreases 5 - index,
{
    if !(0 <= position < bytes.len()) || index >= 5 {
        None
    } else if bytes[position] < 0x80 {
        Some(position + 1)
    } else {
        behind_value(bytes, position + 1, index + 1)
    }
}

fn skip_value(bytes: &[u8], position: usize) -> (next: Option<usize>)
    ensures
        match next {
            Some(next) => behind_value(bytes@, position as int, 0) == Some(next as int) && position < next
                <= bytes@.len(),
            None => behind_value(bytes@, position as int, 0) is None,
        },
{
    let mut at: usize = position;
    let mut index: usize = 0;
    while index < 5
        invariant
            index <= 5,
            at == position + index,
            index > 0 ==> at <= bytes@.len(),
            behind_value(bytes@, position as int, 0) == behind_value(bytes@, at as int, index as int),
        decreases 5 - index,
    {
        if at >= bytes.len() {
            return None;
        }
        if bytes[at] < 0x80 {
            return Some(at + 1);
        }
        at += 1;
        index += 1;
    }
    None
}

/// The position behind the value type at `position`, where there is one behind a mark.
pub open spec fn behind_optional(bytes: Seq<u8>, position: int) -> Option<int> {
    if !(0 <= position < bytes.len()) {
        None
    } else if bytes[position] == 0 {
        Some(position + 1)
    } else if bytes[position] == 1 {
        behind_value(bytes, position + 1, 0)
    } else {
        None
    }
}

fn skip_optional(bytes: &[u8], position: usize) -> (next: Option<usize>)
    ensures
        match next {
            Some(next) => behind_optional(bytes@, position as int) == Some(next as int) && position < next
                <= bytes@.len(),
            None => behind_optional(bytes@, position as int) is None,
        },
{
    if position >= bytes.len() {
        None
    } else if bytes[position] == 0 {
        Some(position + 1)
    } else if bytes[position] == 1 {
        skip_value(bytes, position + 1)
    } else {
        None
    }
}

/// What stands in a list.
#[derive(Clone, Copy, Debug, PartialEq, Eq, Structural)]
pub enum Element {
    /// A label.
    Label,
    /// A value type.
    Value,
    /// A label and a value type.
    Field,
    /// A case of a variant.
    Case,
    /// An argument of an instantiation.
    Argument,
}

/// The position behind the list element at `position`.
pub open spec fn behind_element(element: Element, bytes: Seq<u8>, position: int) -> Option<int> {
    match element {
        Element::Value => behind_value(bytes, position, 0),
        _ => match text_at(bytes, position) {
            None => None,
            Some((_, end)) => match element {
                Element::Field => behind_value(bytes, end, 0),
                Element::Case => match behind_optional(bytes, end) {
                    Some(next) => if next < bytes.len() && bytes[next] == 0 {
                        Some(next + 1)
                    } else {
                        None
                    },
                    None => None,
                },
                Element::Argument => if end < bytes.len() && 1 <= bytes[end] <= 5 {
                    behind_number(bytes, end + 1)
                } else if end + 1 < bytes.len() && bytes[end] == 0 {
                    behind_number(bytes, end + 2)
                } else {
                    None
                },
                _ => Some(end),
            },
        },
    }
}

fn skip_element(element: Element, bytes: &[u8], position: usize) -> (next: Option<usize>)
    ensures
        match next {
            Some(next) => behind_element(element, bytes@, position as int) == Some(next as int) && position < next
                <= bytes@.len(),
            None => behind_element(element, bytes@, position as int) is None,
        },
{
    if element == Element::Value {
        return skip_value(bytes, position);
    }
    let (_, end) = match read_text(bytes, position) {
        Some(bounds) => bounds,
        None => return None,
    };
    match element {
        Element::Field => skip_value(bytes, end),
        Element::Case => match skip_optional(bytes, end) {
            Some(next) => {
                if next < bytes.len() && bytes[next] == 0 {
                    Some(next + 1)
                } else {
                    None
                }
            },
            None => None,
        },
        Element::Argument => {
            if end < bytes.len() && 1 <= bytes[end] && bytes[end] <= 5 {
                skip_number(bytes, end + 1)
            } else if bytes.len() - end >= 2 && bytes[end] == 0 {
                skip_number(bytes, end + 2)
            } else {
                None
            }
        },
        _ => Some(end),
    }
}

/// The position behind `count` list elements from `position` on.
pub open spec fn behind_elements(element: Element, bytes: Seq<u8>, position: int, count: int) -> Option<int>
    decreases count,
{
    if count <= 0 {
        Some(position)
    } else {
        match behind_element(element, bytes, position) {
            None => None,
            Some(next) => behind_elements(element, bytes, next, count - 1),
        }
    }
}

/// The position behind the list at `position`.
pub open spec fn behind_list(element: Element, bytes: Seq<u8>, position: int) -> Option<int> {
    match number_at(bytes, position) {
        None => None,
        Some((count, start)) => behind_elements(element, bytes, start, count),
    }
}

fn skip_list(element: Element, bytes: &[u8], position: usize) -> (next: Option<usize>)
    ensures
        match next {
            Some(next) => behind_list(element, bytes@, position as int) == Some(next as int) && position < next
                <= bytes@.len(),
            None => behind_list(element, bytes@, position as int) is None,
        },
{
    let (count, start) = match read_number(bytes, position) {
        Some(number) => number,
        None => return None,
    };
    let mut left: usize = count;
    let mut at: usize = start;
    while left > 0
        invariant
            position < at <= bytes@.len(),
            behind_list(element, bytes@, position as int) == behind_elements(element, bytes@, at as int, left as int),
        decreases left,
    {
        at = match skip_element(element, bytes, at) {
            Some(next) => next,
            None => return None,
        };
        left -= 1;
    }
    Some(at)
}

/// What the type at `position` is, and the position behind it, where it is no instance or
/// component type.
pub open spec fn plain_type(bytes: Seq<u8>, position: int) -> Option<(Sort, int)> {
    if !(0 <= position < bytes.len()) {
        None
    } else {
        let code = bytes[position];
        let next = position + 1;
        if code == 0x3f {
            match resource_end(bytes, next) {
                Some(end) => Some((Sort::Named, end)),
                None => None,
            }
        } else if code == 0x40 || code == 0x43 {
            match function_end(bytes, next) {
                Some(end) => Some((Sort::Other, end)),
                None => None,
            }
        } else {
            match value_end(bytes, code, next) {
                Some(end) => Some((Sort::Value, end)),
                None => None,
            }
        }
    }
}

/// The position behind a resource type whose code stands before `position`.
pub open spec fn resource_end(bytes: Seq<u8>, position: int) -> Option<int> {
    if position + 1 < bytes.len() && bytes[position] == 0x7f {
        if bytes[position + 1] == 0 {
            Some(position + 2)
        } else if bytes[position + 1] == 1 {
            behind_number(bytes, position + 2)
        } else {
            None
        }
    } else {
        None
    }
}

/// The position behind a function type whose code stands before `position`.
pub open spec fn function_end(bytes: Seq<u8>, position: int) -> Option<int> {
    match behind_list(Element::Field, bytes, position) {
        None => None,
        Some(next) => if next < bytes.len() && bytes[next] == 0 {
            behind_value(bytes, next + 1, 0)
        } else if next + 1 < bytes.len() && bytes[next] == 1 && bytes[next + 1] == 0 {
            Some(next + 2)
        } else {
            None
        },
    }
}

/// The position behind a value type of this code, which stands before `position`.
pub open spec fn value_end(bytes: Seq<u8>, code: u8, position: int) -> Option<int> {
    if code == 0x64 || 0x73 <= code <= 0x7f {
        Some(position)
    } else if code == 0x72 {
        behind_list(Element::Field, bytes, position)
    } else if code == 0x71 {
        behind_list(Element::Case, bytes, position)
    } else if code == 0x6f {
        behind_list(Element::Value, bytes, position)
    } else if code == 0x6e || code == 0x6d {
        behind_list(Element::Label, bytes, position)
    } else if code == 0x70 || code == 0x6b {
        behind_value(bytes, position, 0)
    } else if code == 0x66 || code == 0x65 {
        behind_optional(bytes, position)
    } else if code == 0x69 || code == 0x68 {
        behind_number(bytes, position)
    } else if code == 0x6a {
        match behind_optional(bytes, position) {
            Some(next) => behind_optional(bytes, next),
            None => None,
        }
    } else if code == 0x63 {
        match behind_value(bytes, position, 0) {
            Some(next) => behind_value(bytes, next, 0),
            None => None,
        }
    } else if code == 0x67 {
        match behind_value(bytes, position, 0) {
            Some(next) => behind_number(bytes, next),
            None => None,
        }
    } else {
        None
    }
}

fn read_resource(bytes: &[u8], position: usize) -> (end: Option<usize>)
    requires
        position <= bytes@.len(),
    ensures
        match end {
            Some(end) => resource_end(bytes@, position as int) == Some(end as int) && position <= end <= bytes@.len(),
            None => resource_end(bytes@, position as int) is None,
        },
{
    if bytes.len() - position >= 2 && bytes[position] == 0x7f {
        if bytes[position + 1] == 0 {
            Some(position + 2)
        } else if bytes[position + 1] == 1 {
            skip_number(bytes, position + 2)
        } else {
            None
        }
    } else {
        None
    }
}

fn read_function(bytes: &[u8], position: usize) -> (end: Option<usize>)
    requires
        position <= bytes@.len(),
    ensures
        match end {
            Some(end) => function_end(bytes@, position as int) == Some(end as int) && position <= end <= bytes@.len(),
            None => function_end(bytes@, position as int) is None,
        },
{
    let next = match skip_list(Element::Field, bytes, position) {
        Some(next) => next,
        None => return None,
    };
    if next < bytes.len() && bytes[next] == 0 {
        skip_value(bytes, next + 1)
    } else if bytes.len() - next >= 2 && bytes[next] == 1 && bytes[next + 1] == 0 {
        Some(next + 2)
    } else {
        None
    }
}

fn read_value(bytes: &[u8], code: u8, position: usize) -> (end: Option<usize>)
    requires
        position <= bytes@.len(),
    ensures
        match end {
            Some(end) => value_end(bytes@, code, position as int) == Some(end as int) && position <= end
                <= bytes@.len(),
            None => value_end(bytes@, code, position as int) is None,
        },
{
    if code == 0x64 || (0x73 <= code && code <= 0x7f) {
        Some(position)
    } else if code == 0x72 {
        skip_list(Element::Field, bytes, position)
    } else if code == 0x71 {
        skip_list(Element::Case, bytes, position)
    } else if code == 0x6f {
        skip_list(Element::Value, bytes, position)
    } else if code == 0x6e || code == 0x6d {
        skip_list(Element::Label, bytes, position)
    } else if code == 0x70 || code == 0x6b {
        skip_value(bytes, position)
    } else if code == 0x66 || code == 0x65 {
        skip_optional(bytes, position)
    } else if code == 0x69 || code == 0x68 {
        skip_number(bytes, position)
    } else if code == 0x6a {
        match skip_optional(bytes, position) {
            Some(next) => skip_optional(bytes, next),
            None => None,
        }
    } else if code == 0x63 {
        match skip_value(bytes, position) {
            Some(next) => skip_value(bytes, next),
            None => None,
        }
    } else if code == 0x67 {
        match skip_value(bytes, position) {
            Some(next) => skip_number(bytes, next),
            None => None,
        }
    } else {
        None
    }
}

fn read_plain_type(bytes: &[u8], position: usize) -> (found: Option<(Sort, usize)>)
    ensures
        match found {
            Some((sort, end)) => plain_type(bytes@, position as int) == Some((sort, end as int)) && position < end
                <= bytes@.len(),
            None => plain_type(bytes@, position as int) is None,
        },
{
    if position >= bytes.len() {
        return None;
    }
    let code: u8 = bytes[position];
    if code == 0x3f {
        match read_resource(bytes, position + 1) {
            Some(end) => Some((Sort::Named, end)),
            None => None,
        }
    } else if code == 0x40 || code == 0x43 {
        match read_function(bytes, position + 1) {
            Some(end) => Some((Sort::Other, end)),
            None => None,
        }
    } else {
        match read_value(bytes, code, position + 1) {
            Some(end) => Some((Sort::Value, end)),
            None => None,
        }
    }
}

/// `part` stands in `name` at `position`.
pub open spec fn part_at(name: Seq<u8>, position: int, part: Seq<u8>) -> bool {
    position + part.len() <= name.len() && name.subrange(position, position + part.len()) == part
}

fn has_part(name: &[u8], position: usize, part: &[u8]) -> (found: bool)
    requires
        position <= name@.len(),
    ensures
        found == part_at(name@, position as int, part@),
{
    part.len() <= name.len() - position && same_bytes(
        vstd::slice::slice_subrange(name, position, position + part.len()),
        part,
    )
}

/// A name without a colon is no name of an interface.
pub open spec fn is_local(name: Seq<u8>) -> bool {
    forall|index: int| 0 <= index < name.len() ==> #[trigger] name[index] != 0x3a
}

/// A name with at most one slash. Where it names an interface, no part of that name stands
/// behind the interface.
pub open spec fn is_single(name: Seq<u8>) -> bool {
    forall|first: int, second: int|
        0 <= first < second < name.len() && #[trigger] name[first] == 0x2f ==> #[trigger] name[second] != 0x2f
}

/// The name of a function that belongs to no resource.
pub open spec fn is_plain(name: Seq<u8>) -> bool {
    is_local(name) && name.len() > 0 && name[0] != 0x5b
}

/// The name of a constructor, a method or a static function of `resource`.
pub open spec fn is_member(name: Seq<u8>, resource: Seq<u8>) -> bool {
    ||| part_at(name, 0, encode_utf8(CONSTRUCTOR@)) && part_at(
        name,
        encode_utf8(CONSTRUCTOR@).len() as int,
        resource,
    ) && name.len() == encode_utf8(CONSTRUCTOR@).len() + resource.len()
    ||| is_member_behind(name, encode_utf8(METHOD@), resource)
    ||| is_member_behind(name, encode_utf8(STATIC@), resource)
}

/// The name starts so, and goes on with the resource and a dot.
pub open spec fn is_member_behind(name: Seq<u8>, start: Seq<u8>, resource: Seq<u8>) -> bool {
    part_at(name, 0, start) && part_at(name, start.len() as int, resource) && start.len() + resource.len() < name.len()
        && name[(start.len() + resource.len()) as int] == 0x2e
}

/// The name of a function of an interface that defines these resources.
pub open spec fn is_function(name: Seq<u8>, resources: Seq<Seq<u8>>) -> bool {
    is_plain(name) || (is_local(name) && exists|index: int|
        0 <= index < resources.len() && is_member(name, #[trigger] resources[index]))
}

fn local(name: &[u8]) -> (found: bool)
    ensures
        found == is_local(name@),
{
    let mut index: usize = 0;
    while index < name.len()
        invariant
            index <= name@.len(),
            forall|i: int| 0 <= i < index ==> #[trigger] name@[i] != 0x3a,
        decreases name@.len() - index,
    {
        if name[index] == 0x3a {
            return false;
        }
        index += 1;
    }
    true
}

fn single(name: &[u8]) -> (found: bool)
    ensures
        found == is_single(name@),
{
    let mut slash: Option<usize> = None;
    let mut index: usize = 0;
    while index < name.len()
        invariant
            index <= name@.len(),
            match slash {
                Some(first) => first < index && name@[first as int] == 0x2f && forall|i: int|
                    0 <= i < index && i != first ==> #[trigger] name@[i] != 0x2f,
                None => forall|i: int| 0 <= i < index ==> #[trigger] name@[i] != 0x2f,
            },
        decreases name@.len() - index,
    {
        if name[index] == 0x2f {
            if slash.is_some() {
                return false;
            }
            slash = Some(index);
        }
        index += 1;
    }
    true
}

fn plain(name: &[u8]) -> (found: bool)
    ensures
        found == is_plain(name@),
{
    local(name) && name.len() > 0 && name[0] != 0x5b
}

fn member_behind(name: &[u8], start: &[u8], resource: &[u8]) -> (found: bool)
    ensures
        found == is_member_behind(name@, start@, resource@),
{
    if !has_part(name, 0, start) || !has_part(name, start.len(), resource) {
        return false;
    }
    resource.len() < name.len() - start.len() && name[start.len() + resource.len()] == 0x2e
}

fn member(name: &[u8], resource: &[u8]) -> (found: bool)
    ensures
        found == is_member(name@, resource@),
{
    let constructor = CONSTRUCTOR.as_bytes();
    if has_part(name, 0, constructor) && has_part(name, constructor.len(), resource) && name.len() - constructor.len()
        == resource.len() {
        return true;
    }
    member_behind(name, METHOD.as_bytes(), resource) || member_behind(name, STATIC.as_bytes(), resource)
}

fn function(name: &[u8], resources: &Vec<&[u8]>) -> (found: bool)
    ensures
        found == is_function(name@, slices(resources@)),
{
    if plain(name) {
        return true;
    }
    if !local(name) {
        return false;
    }
    let mut index: usize = 0;
    while index < resources.len()
        invariant
            index <= resources@.len(),
            is_local(name@),
            !is_plain(name@),
            forall|i: int| 0 <= i < index ==> !is_member(name@, #[trigger] slices(resources@)[i]),
        decreases resources@.len() - index,
    {
        assert(slices(resources@)[index as int] == resources@[index as int]@);
        if member(name, resources[index]) {
            return true;
        }
        index += 1;
    }
    false
}

/// What the bound of a type at `position` stands for, and the position behind it: one of
/// the types that may have a name, or a new resource.
pub open spec fn bound_at(bytes: Seq<u8>, position: int, types: Seq<Sort>) -> Option<(Sort, int)> {
    if !(0 <= position < bytes.len()) {
        None
    } else if bytes[position] == 0 {
        match number_at(bytes, position + 1) {
            Some((index, next)) => if index < types.len() && is_nameable(types[index]) {
                Some((types[index], next))
            } else {
                None
            },
            None => None,
        }
    } else if bytes[position] == 1 {
        Some((Sort::Named, position + 1))
    } else {
        None
    }
}

fn read_bound(bytes: &[u8], position: usize, types: &Vec<Sort>) -> (found: Option<(Sort, usize)>)
    ensures
        match found {
            Some((sort, next)) => bound_at(bytes@, position as int, types@) == Some((sort, next as int)) && position
                < next <= bytes@.len(),
            None => bound_at(bytes@, position as int, types@) is None,
        },
{
    if position >= bytes.len() {
        None
    } else if bytes[position] == 0 {
        match read_number(bytes, position + 1) {
            Some((index, next)) => {
                if index < types.len() && (types[index] == Sort::Value || types[index] == Sort::Named) {
                    Some((types[index], next))
                } else {
                    None
                }
            },
            None => None,
        }
    } else if bytes[position] == 1 {
        Some((Sort::Named, position + 1))
    } else {
        None
    }
}

/// What an instance type has declared so far.
pub ghost struct InterfaceView {
    pub types: Seq<Sort>,
    /// The names of the resources that it defines.
    pub resources: Seq<Seq<u8>>,
    /// It exports a type.
    pub typed: bool,
}

/// What a declaration of an instance type at `position` adds to what was declared before,
/// and the position behind it. `outer` are the types around the instance type.
pub open spec fn declared_at(bytes: Seq<u8>, position: int, outer: Seq<Sort>, before: InterfaceView) -> Option<
    (InterfaceView, int),
> {
    if !(0 <= position < bytes.len()) {
        None
    } else if bytes[position] == 1 {
        match plain_type(bytes, position + 1) {
            Some((sort, next)) => Some((InterfaceView { types: before.types.push(sort), ..before }, next)),
            None => None,
        }
    } else if bytes[position] == 2 {
        match outer_alias(bytes, position + 1) {
            Some((index, next)) => if index < outer.len() {
                Some((InterfaceView { types: before.types.push(outer[index]), ..before }, next))
            } else {
                None
            },
            None => None,
        }
    } else if bytes[position] == 4 {
        match name_at(bytes, position + 1) {
            Some((start, end)) => exported_at(bytes, bytes.subrange(start, end), end, before),
            None => None,
        }
    } else {
        None
    }
}

/// The index of the type of the scope around that the alias at `position` stands for, and
/// the position behind it.
pub open spec fn outer_alias(bytes: Seq<u8>, position: int) -> Option<(int, int)> {
    if position + 1 < bytes.len() && bytes[position] == 3 && bytes[position + 1] == 2 {
        match number_at(bytes, position + 2) {
            Some((count, next)) => if count == 1 {
                number_at(bytes, next)
            } else {
                None
            },
            None => None,
        }
    } else {
        None
    }
}

/// What the export `name` of an instance type, described at `position`, adds to what was
/// declared before.
pub open spec fn exported_at(bytes: Seq<u8>, name: Seq<u8>, position: int, before: InterfaceView) -> Option<
    (InterfaceView, int),
> {
    if !(0 <= position < bytes.len()) {
        None
    } else if bytes[position] == 1 {
        match number_at(bytes, position + 1) {
            Some((_, next)) => if is_function(name, before.resources) {
                Some((before, next))
            } else {
                None
            },
            None => None,
        }
    } else if bytes[position] == 3 {
        match bound_at(bytes, position + 1, before.types) {
            Some((sort, next)) => Some(
                (
                    InterfaceView {
                        types: before.types.push(sort),
                        resources: if bytes[position + 1] == 1 {
                            before.resources.push(name)
                        } else {
                            before.resources
                        },
                        typed: true,
                    },
                    next,
                ),
            ),
            None => None,
        }
    } else {
        None
    }
}

/// Whether a type is exported among `count` declarations of an instance type from `position`
/// on or was before, and the position behind them.
pub open spec fn declarations_at(
    bytes: Seq<u8>,
    position: int,
    count: int,
    outer: Seq<Sort>,
    before: InterfaceView,
) -> Option<(bool, int)>
    decreases count,
{
    if count <= 0 {
        Some((before.typed, position))
    } else {
        match declared_at(bytes, position, outer, before) {
            Some((after, next)) => declarations_at(bytes, next, count - 1, outer, after),
            None => None,
        }
    }
}

/// Whether the instance type whose code stands before `position` exports a type, and the
/// position behind it.
pub open spec fn interface_at(bytes: Seq<u8>, position: int, outer: Seq<Sort>) -> Option<(bool, int)> {
    match number_at(bytes, position) {
        Some((count, start)) => declarations_at(
            bytes,
            start,
            count,
            outer,
            InterfaceView { types: Seq::empty(), resources: Seq::empty(), typed: false },
        ),
        None => None,
    }
}

struct Interface<'a> {
    types: Vec<Sort>,
    resources: Vec<&'a [u8]>,
    typed: bool,
}

impl View for Interface<'_> {
    type V = InterfaceView;

    closed spec fn view(&self) -> InterfaceView {
        InterfaceView { types: self.types@, resources: slices(self.resources@), typed: self.typed }
    }
}

fn read_outer_alias(bytes: &[u8], position: usize) -> (found: Option<(usize, usize)>)
    requires
        position <= bytes@.len(),
    ensures
        match found {
            Some((index, next)) => outer_alias(bytes@, position as int) == Some((index as int, next as int))
                && position < next <= bytes@.len(),
            None => outer_alias(bytes@, position as int) is None,
        },
{
    if bytes.len() - position < 2 || bytes[position] != 3 || bytes[position + 1] != 2 {
        return None;
    }
    match read_number(bytes, position + 2) {
        Some((count, next)) => {
            if count == 1 {
                read_number(bytes, next)
            } else {
                None
            }
        },
        None => None,
    }
}

impl<'a> Interface<'a> {
    fn read_export(&mut self, bytes: &'a [u8], name: &'a [u8], position: usize) -> (next: Option<usize>)
        ensures
            match next {
                Some(next) => exported_at(bytes@, name@, position as int, old(self)@) == Some(
                    (final(self)@, next as int),
                ) && position < next <= bytes@.len(),
                None => exported_at(bytes@, name@, position as int, old(self)@) is None,
            },
    {
        if position >= bytes.len() {
            return None;
        }
        if bytes[position] == 1 {
            return match skip_number(bytes, position + 1) {
                Some(next) => {
                    if function(name, &self.resources) {
                        Some(next)
                    } else {
                        None
                    }
                },
                None => None,
            };
        }
        if bytes[position] != 3 {
            return None;
        }
        match read_bound(bytes, position + 1, &self.types) {
            Some((sort, next)) => {
                if bytes[position + 1] == 1 {
                    let ghost before = self.resources@;
                    self.resources.push(name);
                    assert(slices(self.resources@) =~= slices(before).push(name@));
                }
                self.types.push(sort);
                self.typed = true;
                Some(next)
            },
            None => None,
        }
    }

    fn read_declaration(&mut self, bytes: &'a [u8], position: usize, outer: &Vec<Sort>) -> (next: Option<usize>)
        ensures
            match next {
                Some(next) => declared_at(bytes@, position as int, outer@, old(self)@) == Some(
                    (final(self)@, next as int),
                ) && position < next <= bytes@.len(),
                None => declared_at(bytes@, position as int, outer@, old(self)@) is None,
            },
    {
        if position >= bytes.len() {
            return None;
        }
        if bytes[position] == 1 {
            match read_plain_type(bytes, position + 1) {
                Some((sort, next)) => {
                    self.types.push(sort);
                    Some(next)
                },
                None => None,
            }
        } else if bytes[position] == 2 {
            match read_outer_alias(bytes, position + 1) {
                Some((index, next)) => {
                    if index < outer.len() {
                        self.types.push(outer[index]);
                        Some(next)
                    } else {
                        None
                    }
                },
                None => None,
            }
        } else if bytes[position] == 4 {
            match read_name(bytes, position + 1) {
                Some((start, end)) => self.read_export(
                    bytes,
                    vstd::slice::slice_subrange(bytes, start, end),
                    end,
                ),
                None => None,
            }
        } else {
            None
        }
    }
}

fn read_interface(bytes: &[u8], position: usize, outer: &Vec<Sort>) -> (found: Option<(bool, usize)>)
    requires
        position <= bytes@.len(),
    ensures
        match found {
            Some((typed, end)) => interface_at(bytes@, position as int, outer@) == Some((typed, end as int)) && position
                < end <= bytes@.len(),
            None => interface_at(bytes@, position as int, outer@) is None,
        },
{
    let (count, start) = match read_number(bytes, position) {
        Some(number) => number,
        None => return None,
    };
    let mut interface = Interface { types: Vec::new(), resources: Vec::new(), typed: false };
    let mut left: usize = count;
    let mut at: usize = start;
    assert(interface@.resources =~= Seq::empty());
    while left > 0
        invariant
            position < at <= bytes@.len(),
            interface_at(bytes@, position as int, outer@) == declarations_at(
                bytes@,
                at as int,
                left as int,
                outer@,
                interface@,
            ),
        decreases left,
    {
        at = match interface.read_declaration(bytes, at, outer) {
            Some(next) => next,
            None => return None,
        };
        left -= 1;
    }
    Some((interface.typed, at))
}

/// The position behind the sort and the target of an alias at `position`.
pub open spec fn behind_alias(bytes: Seq<u8>, position: int) -> Option<int> {
    if !(0 <= position < bytes.len()) {
        None
    } else if bytes[position] == 0 {
        behind_target(bytes, position + 2)
    } else {
        behind_target(bytes, position + 1)
    }
}

/// The position behind the target of an alias at `position`.
pub open spec fn behind_target(bytes: Seq<u8>, position: int) -> Option<int> {
    if !(0 <= position < bytes.len()) {
        None
    } else {
        match number_at(bytes, position + 1) {
            None => None,
            Some((_, next)) => if bytes[position] == 2 {
                behind_number(bytes, next)
            } else if bytes[position] < 2 {
                match text_at(bytes, next) {
                    Some((_, end)) => Some(end),
                    None => None,
                }
            } else {
                None
            },
        }
    }
}

/// The position behind what an import or export is described to be at `position`.
pub open spec fn behind_description(bytes: Seq<u8>, position: int) -> Option<int> {
    if !(0 <= position < bytes.len()) {
        None
    } else if bytes[position] == 0 {
        if position + 1 < bytes.len() && bytes[position + 1] == 0x11 {
            behind_number(bytes, position + 2)
        } else {
            None
        }
    } else if bytes[position] == 2 {
        if position + 1 < bytes.len() && bytes[position + 1] == 0 {
            behind_number(bytes, position + 2)
        } else if position + 1 < bytes.len() && bytes[position + 1] == 1 {
            behind_value(bytes, position + 2, 0)
        } else {
            None
        }
    } else if bytes[position] == 3 {
        if position + 1 < bytes.len() && bytes[position + 1] == 0 {
            behind_number(bytes, position + 2)
        } else if position + 1 < bytes.len() && bytes[position + 1] == 1 {
            Some(position + 2)
        } else {
            None
        }
    } else if bytes[position] <= 5 {
        behind_number(bytes, position + 1)
    } else {
        None
    }
}

/// The position behind the type at `position`, in which types are nested at most so deep.
pub open spec fn behind_type(bytes: Seq<u8>, position: int, depth: nat) -> Option<int>
    decreases depth, 0int,
{
    if !(0 <= position < bytes.len()) {
        None
    } else if bytes[position] == 0x41 || bytes[position] == 0x42 {
        if depth == 0 {
            None
        } else {
            match number_at(bytes, position + 1) {
                Some((count, start)) => behind_members(bytes, start, count, (depth - 1) as nat),
                None => None,
            }
        }
    } else {
        match plain_type(bytes, position) {
            Some((_, next)) => Some(next),
            None => None,
        }
    }
}

/// The position behind `count` declarations of a component or instance type from `position`
/// on.
pub open spec fn behind_members(bytes: Seq<u8>, position: int, count: int, depth: nat) -> Option<int>
    decreases depth, count,
{
    if count <= 0 {
        Some(position)
    } else {
        match (if !(0 <= position < bytes.len()) {
            None
        } else if bytes[position] == 1 {
            behind_type(bytes, position + 1, depth)
        } else {
            behind_member(bytes, position)
        }) {
            Some(next) => behind_members(bytes, next, count - 1, depth),
            None => None,
        }
    }
}

/// The position behind an alias, an import or an export at `position` of a component or
/// instance type.
pub open spec fn behind_member(bytes: Seq<u8>, position: int) -> Option<int> {
    if !(0 <= position < bytes.len()) {
        None
    } else if bytes[position] == 2 {
        behind_alias(bytes, position + 1)
    } else if bytes[position] == 3 || bytes[position] == 4 {
        match name_at(bytes, position + 1) {
            Some((_, end)) => behind_description(bytes, end),
            None => None,
        }
    } else {
        None
    }
}

fn skip_target(bytes: &[u8], position: usize) -> (next: Option<usize>)
    ensures
        match next {
            Some(next) => behind_target(bytes@, position as int) == Some(next as int) && position < next
                <= bytes@.len(),
            None => behind_target(bytes@, position as int) is None,
        },
{
    if position >= bytes.len() {
        return None;
    }
    let next = match skip_number(bytes, position + 1) {
        Some(next) => next,
        None => return None,
    };
    if bytes[position] == 2 {
        skip_number(bytes, next)
    } else if bytes[position] < 2 {
        match read_text(bytes, next) {
            Some((_, end)) => Some(end),
            None => None,
        }
    } else {
        None
    }
}

fn skip_alias(bytes: &[u8], position: usize) -> (next: Option<usize>)
    ensures
        match next {
            Some(next) => behind_alias(bytes@, position as int) == Some(next as int) && position < next
                <= bytes@.len(),
            None => behind_alias(bytes@, position as int) is None,
        },
{
    if position >= bytes.len() {
        None
    } else if bytes[position] == 0 {
        if bytes.len() - position < 2 {
            return None;
        }
        skip_target(bytes, position + 2)
    } else {
        skip_target(bytes, position + 1)
    }
}

fn skip_description(bytes: &[u8], position: usize) -> (next: Option<usize>)
    ensures
        match next {
            Some(next) => behind_description(bytes@, position as int) == Some(next as int) && position < next
                <= bytes@.len(),
            None => behind_description(bytes@, position as int) is None,
        },
{
    if position >= bytes.len() {
        return None;
    }
    let code: u8 = bytes[position];
    if code == 0 || code == 2 || code == 3 {
        if bytes.len() - position < 2 {
            return None;
        }
        let mark: u8 = bytes[position + 1];
        if code == 0 {
            if mark == 0x11 {
                skip_number(bytes, position + 2)
            } else {
                None
            }
        } else if mark == 0 {
            skip_number(bytes, position + 2)
        } else if mark == 1 {
            if code == 2 {
                skip_value(bytes, position + 2)
            } else {
                Some(position + 2)
            }
        } else {
            None
        }
    } else if code <= 5 {
        skip_number(bytes, position + 1)
    } else {
        None
    }
}

fn skip_member(bytes: &[u8], position: usize) -> (next: Option<usize>)
    ensures
        match next {
            Some(next) => behind_member(bytes@, position as int) == Some(next as int) && position < next
                <= bytes@.len(),
            None => behind_member(bytes@, position as int) is None,
        },
{
    if position >= bytes.len() {
        None
    } else if bytes[position] == 2 {
        skip_alias(bytes, position + 1)
    } else if bytes[position] == 3 || bytes[position] == 4 {
        match read_name(bytes, position + 1) {
            Some((_, end)) => skip_description(bytes, end),
            None => None,
        }
    } else {
        None
    }
}

fn skip_type(bytes: &[u8], position: usize, depth: usize) -> (next: Option<usize>)
    ensures
        match next {
            Some(next) => behind_type(bytes@, position as int, depth as nat) == Some(next as int) && position < next
                <= bytes@.len(),
            None => behind_type(bytes@, position as int, depth as nat) is None,
        },
    decreases depth,
{
    if position >= bytes.len() {
        return None;
    }
    if bytes[position] != 0x41 && bytes[position] != 0x42 {
        return match read_plain_type(bytes, position) {
            Some((_, next)) => Some(next),
            None => None,
        };
    }
    if depth == 0 {
        return None;
    }
    let (count, start) = match read_number(bytes, position + 1) {
        Some(number) => number,
        None => return None,
    };
    let mut left: usize = count;
    let mut at: usize = start;
    while left > 0
        invariant
            depth > 0,
            position < at <= bytes@.len(),
            behind_type(bytes@, position as int, depth as nat) == behind_members(
                bytes@,
                at as int,
                left as int,
                (depth - 1) as nat,
            ),
        decreases left,
    {
        let next = if at < bytes.len() && bytes[at] == 1 {
            skip_type(bytes, at + 1, depth - 1)
        } else {
            skip_member(bytes, at)
        };
        at = match next {
            Some(next) => next,
            None => return None,
        };
        left -= 1;
    }
    Some(at)
}

/// What a component has defined so far.
pub ghost struct ScopeView {
    pub types: Seq<Sort>,
    /// Of each component, whether it is recognised.
    pub components: Seq<bool>,
    pub instances: Seq<Origin>,
    /// The names of the resources that the outermost component imports.
    pub resources: Seq<Seq<u8>>,
    /// The names of the interfaces with types that the outermost component imports, and of
    /// those that it exports.
    pub names: Seq<Seq<u8>>,
    pub shape: Shape,
}

/// The name of an interface can be taken: no other has it, and no part of it stands behind
/// the interface.
pub open spec fn is_free(name: Seq<u8>, before: ScopeView) -> bool {
    before.names.len() < MAX_INSTANCES && !before.names.contains(name) && is_single(name)
}

/// The name starts a WIT package where it is the first of a component: a plain name, or that
/// of an interface `wit`.
pub open spec fn starts_package(name: Seq<u8>) -> bool {
    is_local(name) || exists|slash: int|
        0 <= slash < name.len() && #[trigger] name[slash] == 0x2f && is_wit(name.skip(slash + 1))
}

/// `wit`, with or without a version or a part behind it.
pub open spec fn is_wit(name: Seq<u8>) -> bool {
    name.len() >= 3 && name[0] == 0x77 && name[1] == 0x69 && name[2] == 0x74 && (name.len() == 3 || name[3] == 0x40
        || name[3] == 0x2f)
}

/// What a component exports and imports with one more export; `packaged` where that is one
/// of a component type.
pub open spec fn shape_with(before: Shape, name: Seq<u8>, packaged: bool) -> Shape {
    if packaged && (before == Shape::Package || (before == Shape::Empty && starts_package(name))) {
        Shape::Package
    } else {
        Shape::Mixed
    }
}

/// What the import at `position` adds to what was defined before, and the position behind
/// it.
pub open spec fn import_at(bytes: Seq<u8>, position: int, outermost: bool, before: ScopeView) -> Option<
    (ScopeView, int),
> {
    match name_at(bytes, position) {
        None => None,
        Some((start, end)) => match behind_description(bytes, end) {
            None => None,
            Some(next) => match imported(bytes, bytes.subrange(start, end), end, outermost, before) {
                Some(after) => Some((ScopeView { shape: Shape::Mixed, ..after }, next)),
                None => None,
            },
        },
    }
}

/// What the import of this name, described at `position`, adds to what was defined before.
pub open spec fn imported(bytes: Seq<u8>, name: Seq<u8>, position: int, outermost: bool, before: ScopeView) -> Option<
    ScopeView,
> {
    if bytes[position] == 1 {
        if !outermost || is_function(name, before.resources) {
            Some(before)
        } else {
            None
        }
    } else if bytes[position] == 3 {
        match bound_at(bytes, position + 1, before.types) {
            Some((sort, _)) => Some(
                ScopeView {
                    types: before.types.push(sort),
                    resources: if outermost && bytes[position + 1] == 1 {
                        before.resources.push(name)
                    } else {
                        before.resources
                    },
                    ..before
                },
            ),
            None => None,
        }
    } else if bytes[position] == 4 {
        Some(ScopeView { components: before.components.push(false), ..before })
    } else if bytes[position] == 5 {
        match number_at(bytes, position + 1) {
            Some((index, _)) => with_import(name, index, outermost, before),
            None => None,
        }
    } else {
        Some(before)
    }
}

/// What the import of this name with the type at `index` adds to what was defined before.
pub open spec fn with_import(name: Seq<u8>, index: int, outermost: bool, before: ScopeView) -> Option<ScopeView> {
    if index >= before.types.len() {
        None
    } else if before.types[index] == Sort::Functions {
        Some(ScopeView { instances: before.instances.push(Origin::Imported), ..before })
    } else if before.types[index] == Sort::Interface {
        if !outermost || is_local(name) {
            Some(ScopeView { instances: before.instances.push(Origin::Imported), ..before })
        } else if is_free(name, before) {
            Some(
                ScopeView {
                    instances: before.instances.push(Origin::Imported),
                    names: before.names.push(name),
                    ..before
                },
            )
        } else {
            None
        }
    } else if outermost {
        None
    } else {
        Some(ScopeView { instances: before.instances.push(Origin::Unknown), ..before })
    }
}

/// The bounds of the sort and the index of an item at `position`: what the item is, the index,
/// and the position behind it.
pub open spec fn item_at(bytes: Seq<u8>, position: int) -> Option<(u8, int, int)> {
    if !(0 <= position < bytes.len()) || bytes[position] > 5 {
        None
    } else if bytes[position] == 0 {
        match number_at(bytes, position + 2) {
            Some((index, next)) => Some((0, index, next)),
            None => None,
        }
    } else {
        match number_at(bytes, position + 1) {
            Some((index, next)) => Some((bytes[position], index, next)),
            None => None,
        }
    }
}

/// The position behind the type that an item is exported with, where it is given one; only
/// functions can be.
pub open spec fn behind_signature(bytes: Seq<u8>, position: int, function: bool) -> Option<int> {
    if 0 <= position < bytes.len() && bytes[position] == 0 {
        Some(position + 1)
    } else if function && 0 <= position && position + 1 < bytes.len() && bytes[position] == 1 && bytes[position + 1]
        == 1 {
        behind_number(bytes, position + 2)
    } else {
        None
    }
}

/// What the export at `position` adds to what was defined before, and the position behind
/// it.
pub open spec fn export_at(bytes: Seq<u8>, position: int, outermost: bool, before: ScopeView) -> Option<
    (ScopeView, int),
> {
    match name_at(bytes, position) {
        None => None,
        Some((start, end)) => match item_at(bytes, end) {
            None => None,
            Some((sort, index, next)) => match behind_signature(bytes, next, sort == 1) {
                None => None,
                Some(behind) => match exported(bytes.subrange(start, end), sort, index, outermost, before) {
                    Some(after) => Some((after, behind)),
                    None => None,
                },
            },
        },
    }
}

/// What the export of an item under this name adds to what was defined before.
pub open spec fn exported(name: Seq<u8>, sort: u8, index: int, outermost: bool, before: ScopeView) -> Option<ScopeView> {
    let mixed = ScopeView { shape: Shape::Mixed, ..before };
    if sort == 1 {
        if is_plain(name) || (outermost && is_function(name, before.resources)) {
            Some(mixed)
        } else {
            None
        }
    } else if sort == 3 {
        if index < before.types.len() && (is_nameable(before.types[index]) || (outermost && before.types[index]
            != Sort::Other)) {
            Some(
                ScopeView {
                    types: before.types.push(before.types[index]),
                    shape: shape_with(before.shape, name, before.types[index] == Sort::Component),
                    ..before
                },
            )
        } else {
            None
        }
    } else if sort == 4 {
        if index < before.components.len() {
            Some(ScopeView { components: before.components.push(before.components[index]), ..mixed })
        } else {
            None
        }
    } else if sort == 5 {
        if index >= before.instances.len() {
            None
        } else {
            with_export(name, before.instances[index], outermost, mixed)
        }
    } else {
        Some(mixed)
    }
}

/// What the export of an instance under this name adds to what was defined before.
pub open spec fn with_export(name: Seq<u8>, origin: Origin, outermost: bool, before: ScopeView) -> Option<ScopeView> {
    if origin == Origin::Unknown || (origin == Origin::Imported && !outermost) {
        None
    } else if !outermost || is_local(name) {
        Some(ScopeView { instances: before.instances.push(origin), ..before })
    } else if is_free(name, before) {
        Some(ScopeView { instances: before.instances.push(origin), names: before.names.push(name), ..before })
    } else {
        None
    }
}

/// What the instance at `position` adds to what was defined before, and the position behind
/// it.
pub open spec fn instance_at(bytes: Seq<u8>, position: int, before: ScopeView) -> Option<(ScopeView, int)> {
    if !(0 <= position < bytes.len()) || bytes[position] > 1 {
        None
    } else {
        match number_at(bytes, position + 1) {
            None => None,
            Some((number, start)) => if bytes[position] == 0 {
                match behind_list(Element::Argument, bytes, start) {
                    Some(next) => Some(
                        (with_instance(number < before.components.len() && before.components[number], before), next),
                    ),
                    None => None,
                }
            } else {
                match items_at(bytes, start, number, true, before) {
                    Some((known, next)) => Some((with_instance(known, before), next)),
                    None => None,
                }
            },
        }
    }
}

/// What an instance adds to what was defined before; `known` where it is made of what is
/// recognised.
pub open spec fn with_instance(known: bool, before: ScopeView) -> ScopeView {
    let origin = if known {
        Origin::Made
    } else {
        Origin::Unknown
    };
    ScopeView { instances: before.instances.push(origin), ..before }
}

/// Whether the `count` items from `position` on, of which an instance is made, are all
/// recognised and those before are `known`, and the position behind them.
pub open spec fn items_at(bytes: Seq<u8>, position: int, count: int, known: bool, before: ScopeView) -> Option<
    (bool, int),
>
    decreases count,
{
    if count <= 0 {
        Some((known, position))
    } else {
        match name_at(bytes, position) {
            None => None,
            Some((start, end)) => match item_at(bytes, end) {
                None => None,
                Some((sort, index, next)) => items_at(
                    bytes,
                    next,
                    count - 1,
                    known && is_item(bytes.subrange(start, end), sort, index, before),
                    before,
                ),
            },
        }
    }
}

/// An item that is recognised in an instance.
pub open spec fn is_item(name: Seq<u8>, sort: u8, index: int, before: ScopeView) -> bool {
    if sort == 1 {
        is_plain(name)
    } else if sort == 3 {
        index < before.types.len() && is_nameable(before.types[index])
    } else if sort == 5 {
        index < before.instances.len() && before.instances[index] == Origin::Made
    } else {
        true
    }
}

/// What the type at `position` adds to what was defined before, and the position behind it.
pub open spec fn type_at(bytes: Seq<u8>, position: int, before: ScopeView) -> Option<(ScopeView, int)> {
    match sort_at(bytes, position, before.types) {
        Some((sort, next)) => Some((ScopeView { types: before.types.push(sort), ..before }, next)),
        None => None,
    }
}

/// What the type at `position` is, behind these types, and the position behind it.
pub open spec fn sort_at(bytes: Seq<u8>, position: int, types: Seq<Sort>) -> Option<(Sort, int)> {
    if 0 <= position < bytes.len() && bytes[position] == 0x42 {
        match interface_at(bytes, position + 1, types) {
            Some((typed, next)) => Some(
                (
                    if typed {
                        Sort::Interface
                    } else {
                        Sort::Functions
                    },
                    next,
                ),
            ),
            None => match behind_type(bytes, position, MAX_TYPE_NESTING as nat) {
                Some(next) => Some((Sort::Other, next)),
                None => None,
            },
        }
    } else if 0 <= position < bytes.len() && bytes[position] == 0x41 {
        match behind_type(bytes, position, MAX_TYPE_NESTING as nat) {
            Some(next) => Some((Sort::Component, next)),
            None => None,
        }
    } else {
        plain_type(bytes, position)
    }
}

/// What the alias at `position` adds to what was defined before, and the position behind
/// it. A type of an instance that is recognised has a name there; nothing is known of any
/// other.
pub open spec fn alias_at(bytes: Seq<u8>, position: int, before: ScopeView) -> Option<(ScopeView, int)> {
    match behind_alias(bytes, position) {
        None => None,
        Some(next) => {
            let origin = if position + 1 < bytes.len() && bytes[position + 1] == 0 {
                match number_at(bytes, position + 2) {
                    Some((index, _)) => if index < before.instances.len() {
                        before.instances[index]
                    } else {
                        Origin::Unknown
                    },
                    None => Origin::Unknown,
                }
            } else {
                Origin::Unknown
            };
            let after = if bytes[position] == 3 {
                let sort = if origin == Origin::Unknown {
                    Sort::Other
                } else {
                    Sort::Named
                };
                ScopeView { types: before.types.push(sort), ..before }
            } else if bytes[position] == 4 {
                ScopeView { components: before.components.push(false), ..before }
            } else if bytes[position] == 5 {
                with_instance(origin == Origin::Made, before)
            } else {
                before
            };
            Some((after, next))
        },
    }
}

/// What the entry at `position` of a section with this id adds to what was defined before,
/// and the position behind it.
pub open spec fn entry_at(id: u8, bytes: Seq<u8>, position: int, outermost: bool, before: ScopeView) -> Option<
    (ScopeView, int),
> {
    if id == 5 {
        instance_at(bytes, position, before)
    } else if id == 6 {
        alias_at(bytes, position, before)
    } else if id == 7 {
        type_at(bytes, position, before)
    } else if id == 10 {
        import_at(bytes, position, outermost, before)
    } else if id == 11 {
        export_at(bytes, position, outermost, before)
    } else {
        None
    }
}

/// What `count` entries of a section with this id, from `position` on, add to what was
/// defined before.
pub open spec fn with_entries(
    id: u8,
    bytes: Seq<u8>,
    position: int,
    count: int,
    outermost: bool,
    before: ScopeView,
) -> Option<ScopeView>
    decreases count,
{
    if count <= 0 {
        Some(before)
    } else {
        match entry_at(id, bytes, position, outermost, before) {
            Some((after, next)) => with_entries(id, bytes, next, count - 1, outermost, after),
            None => None,
        }
    }
}

/// A section with this id defines nothing that tells what can be decoded: what belongs to
/// modules, functions and values.
pub open spec fn is_silent(id: u8) -> bool {
    id < 4 || id == 8 || id == 9 || id == 12
}

/// What a section with this id and these contents adds to what was defined before.
pub open spec fn with_section(id: u8, contents: Seq<u8>, outermost: bool, before: ScopeView) -> Option<ScopeView> {
    if is_silent(id) {
        Some(before)
    } else {
        match number_at(contents, 0) {
            Some((count, start)) => with_entries(id, contents, start, count, outermost, before),
            None => None,
        }
    }
}

/// What a component exports and imports as a whole, whose sections from `position` on stand
/// behind what was defined before, where they are recognised.
pub open spec fn recognised_from(bytes: Seq<u8>, position: int, depth: int, before: ScopeView) -> Option<Shape>
    decreases MAX_NESTING + 1 - depth, bytes.len() - position,
{
    if depth > MAX_NESTING {
        None
    } else if position >= bytes.len() {
        Some(before.shape)
    } else {
        match section_at(bytes, position) {
            Err(_) => None,
            Ok((id, start, end)) => {
                proof {
                    lemma_leb_bounds(bytes, position + 1, 0);
                }
                let contents = bytes.subrange(start, end);
                if id == 4 {
                    let known = recognised_from(contents, 8, depth + 1, no_scope()) is Some;
                    recognised_from(
                        bytes,
                        end,
                        depth,
                        ScopeView { components: before.components.push(known), ..before },
                    )
                } else {
                    match with_section(id, contents, depth == 0, before) {
                        Some(after) => recognised_from(bytes, end, depth, after),
                        None => None,
                    }
                }
            },
        }
    }
}

/// A component that has defined nothing yet.
pub open spec fn no_scope() -> ScopeView {
    ScopeView {
        types: Seq::empty(),
        components: Seq::empty(),
        instances: Seq::empty(),
        resources: Seq::empty(),
        names: Seq::empty(),
        shape: Shape::Empty,
    }
}

/// What a component exports and imports as a whole, where it is recognised.
pub open spec fn shape_of(component: Seq<u8>) -> Option<Shape> {
    recognised_from(component, 8, 0, no_scope())
}

/// The component is one whose world can be decoded, as far as that can be told from its
/// sections.
pub open spec fn decodes(component: Seq<u8>) -> bool {
    shape_of(component) == Some(Shape::Empty) || shape_of(component) == Some(Shape::Mixed)
}

/// The component is an encoded WIT package: it imports nothing, and exports component types
/// alone.
pub open spec fn is_package(component: Seq<u8>) -> bool {
    shape_of(component) == Some(Shape::Package)
}

struct Scope<'a> {
    types: Vec<Sort>,
    components: Vec<bool>,
    instances: Vec<Origin>,
    resources: Vec<&'a [u8]>,
    names: Vec<&'a [u8]>,
    shape: Shape,
}

impl View for Scope<'_> {
    type V = ScopeView;

    closed spec fn view(&self) -> ScopeView {
        ScopeView {
            types: self.types@,
            components: self.components@,
            instances: self.instances@,
            resources: slices(self.resources@),
            names: slices(self.names@),
            shape: self.shape,
        }
    }
}

fn skip_signature(bytes: &[u8], position: usize, function: bool) -> (next: Option<usize>)
    requires
        position <= bytes@.len(),
    ensures
        match next {
            Some(next) => behind_signature(bytes@, position as int, function) == Some(next as int) && position < next
                <= bytes@.len(),
            None => behind_signature(bytes@, position as int, function) is None,
        },
{
    if position < bytes.len() && bytes[position] == 0 {
        Some(position + 1)
    } else if function && bytes.len() - position >= 2 && bytes[position] == 1 && bytes[position + 1] == 1 {
        skip_number(bytes, position + 2)
    } else {
        None
    }
}

fn read_item(bytes: &[u8], position: usize) -> (item: Option<(u8, usize, usize)>)
    ensures
        match item {
            Some((sort, index, next)) => item_at(bytes@, position as int) == Some((sort, index as int, next as int))
                && position < next <= bytes@.len(),
            None => item_at(bytes@, position as int) is None,
        },
{
    if position >= bytes.len() || bytes[position] > 5 {
        return None;
    }
    let sort: u8 = bytes[position];
    if sort == 0 && bytes.len() - position < 2 {
        return None;
    }
    let start: usize = if sort == 0 {
        position + 2
    } else {
        position + 1
    };
    match read_number(bytes, start) {
        Some((index, next)) => Some((sort, index, next)),
        None => None,
    }
}

fn wit(name: &[u8], start: usize) -> (found: bool)
    requires
        start <= name@.len(),
    ensures
        found == is_wit(name@.skip(start as int)),
{
    name.len() - start >= 3 && name[start] == 0x77 && name[start + 1] == 0x69 && name[start + 2] == 0x74 && (
    name.len() - start == 3 || name[start + 3] == 0x40 || name[start + 3] == 0x2f)
}

fn package_name(name: &[u8]) -> (found: bool)
    ensures
        found == starts_package(name@),
{
    if local(name) {
        return true;
    }
    let mut index: usize = 0;
    while index < name.len()
        invariant
            index <= name@.len(),
            !is_local(name@),
            forall|i: int| 0 <= i < index && #[trigger] name@[i] == 0x2f ==> !is_wit(name@.skip(i + 1)),
        decreases name@.len() - index,
    {
        if name[index] == 0x2f && wit(name, index + 1) {
            return true;
        }
        index += 1;
    }
    false
}

fn contains(names: &Vec<&[u8]>, name: &[u8]) -> (found: bool)
    ensures
        found == slices(names@).contains(name@),
{
    let mut index: usize = 0;
    while index < names.len()
        invariant
            index <= names@.len(),
            forall|i: int| 0 <= i < index ==> (#[trigger] names@[i])@ != name@,
        decreases names@.len() - index,
    {
        if same_bytes(names[index], name) {
            assert(slices(names@)[index as int] == name@);
            return true;
        }
        index += 1;
    }
    proof {
        assert forall|i: int| 0 <= i < slices(names@).len() implies #[trigger] slices(names@)[i] != name@ by {
            assert(slices(names@)[i] == names@[i]@);
        }
    }
    false
}

impl<'a> Scope<'a> {
    fn new() -> (scope: Self)
        ensures
            scope@ == no_scope(),
    {
        let scope = Scope {
            types: Vec::new(),
            components: Vec::new(),
            instances: Vec::new(),
            resources: Vec::new(),
            names: Vec::new(),
            shape: Shape::Empty,
        };
        assert(scope@.names =~= Seq::empty());
        assert(scope@.resources =~= Seq::empty());
        scope
    }

    fn free(&self, name: &[u8]) -> (free: bool)
        ensures
            free == is_free(name@, self@),
    {
        self.names.len() < MAX_INSTANCES && !contains(&self.names, name) && single(name)
    }

    fn add_name(&mut self, name: &'a [u8])
        ensures
            final(self)@ == (ScopeView { names: old(self)@.names.push(name@), ..old(self)@ }),
    {
        let ghost before = self.names@;
        self.names.push(name);
        assert(slices(self.names@) =~= slices(before).push(name@));
    }

    fn add_resource(&mut self, name: &'a [u8])
        ensures
            final(self)@ == (ScopeView { resources: old(self)@.resources.push(name@), ..old(self)@ }),
    {
        let ghost before = self.resources@;
        self.resources.push(name);
        assert(slices(self.resources@) =~= slices(before).push(name@));
    }

    fn add_instance(&mut self, known: bool)
        ensures
            final(self)@ == with_instance(known, old(self)@),
    {
        let origin = if known {
            Origin::Made
        } else {
            Origin::Unknown
        };
        self.instances.push(origin);
    }

    fn add_import(&mut self, name: &'a [u8], index: usize, outermost: bool) -> (added: bool)
        ensures
            if added {
                with_import(name@, index as int, outermost, old(self)@) == Some(final(self)@)
            } else {
                with_import(name@, index as int, outermost, old(self)@) is None
            },
    {
        if index >= self.types.len() {
            return false;
        }
        let sort = self.types[index];
        if sort == Sort::Functions {
            self.instances.push(Origin::Imported);
        } else if sort == Sort::Interface {
            if outermost && !local(name) {
                if !self.free(name) {
                    return false;
                }
                self.add_name(name);
            }
            self.instances.push(Origin::Imported);
        } else if outermost {
            return false;
        } else {
            self.instances.push(Origin::Unknown);
        }
        true
    }

    fn read_import(&mut self, bytes: &'a [u8], position: usize, outermost: bool) -> (next: Option<usize>)
        ensures
            match next {
                Some(next) => import_at(bytes@, position as int, outermost, old(self)@) == Some(
                    (final(self)@, next as int),
                ) && position < next <= bytes@.len(),
                None => import_at(bytes@, position as int, outermost, old(self)@) is None,
            },
    {
        let (start, end) = match read_name(bytes, position) {
            Some(bounds) => bounds,
            None => return None,
        };
        let next = match skip_description(bytes, end) {
            Some(next) => next,
            None => return None,
        };
        let name = vstd::slice::slice_subrange(bytes, start, end);
        if bytes[end] == 1 {
            if outermost && !function(name, &self.resources) {
                return None;
            }
        } else if bytes[end] == 3 {
            let sort = match read_bound(bytes, end + 1, &self.types) {
                Some((sort, _)) => sort,
                None => return None,
            };
            if outermost && bytes[end + 1] == 1 {
                self.add_resource(name);
            }
            self.types.push(sort);
        } else if bytes[end] == 4 {
            self.components.push(false);
        } else if bytes[end] == 5 {
            let index = match read_number(bytes, end + 1) {
                Some((index, _)) => index,
                None => return None,
            };
            if !self.add_import(name, index, outermost) {
                return None;
            }
        }
        self.shape = Shape::Mixed;
        Some(next)
    }

    fn add_export(&mut self, name: &'a [u8], sort: u8, index: usize, outermost: bool) -> (added: bool)
        ensures
            if added {
                exported(name@, sort, index as int, outermost, old(self)@) == Some(final(self)@)
            } else {
                exported(name@, sort, index as int, outermost, old(self)@) is None
            },
    {
        if sort == 1 {
            if !plain(name) && !(outermost && function(name, &self.resources)) {
                return false;
            }
        } else if sort == 3 {
            if index >= self.types.len() {
                return false;
            }
            let exported = self.types[index];
            if exported != Sort::Value && exported != Sort::Named && (!outermost || exported == Sort::Other) {
                return false;
            }
            self.types.push(exported);
            if exported == Sort::Component && (self.shape == Shape::Package || (self.shape == Shape::Empty
                && package_name(name))) {
                self.shape = Shape::Package;
                return true;
            }
        } else if sort == 4 {
            if index >= self.components.len() {
                return false;
            }
            let known: bool = self.components[index];
            self.components.push(known);
        } else if sort == 5 {
            if index >= self.instances.len() {
                return false;
            }
            let origin = self.instances[index];
            if origin == Origin::Unknown || (origin == Origin::Imported && !outermost) {
                return false;
            }
            if outermost && !local(name) {
                if !self.free(name) {
                    return false;
                }
                self.add_name(name);
            }
            self.instances.push(origin);
        }
        self.shape = Shape::Mixed;
        true
    }

    fn read_export(&mut self, bytes: &'a [u8], position: usize, outermost: bool) -> (next: Option<usize>)
        ensures
            match next {
                Some(next) => export_at(bytes@, position as int, outermost, old(self)@) == Some(
                    (final(self)@, next as int),
                ) && position < next <= bytes@.len(),
                None => export_at(bytes@, position as int, outermost, old(self)@) is None,
            },
    {
        let (start, end) = match read_name(bytes, position) {
            Some(bounds) => bounds,
            None => return None,
        };
        let (sort, index, next) = match read_item(bytes, end) {
            Some(item) => item,
            None => return None,
        };
        let behind = match skip_signature(bytes, next, sort == 1) {
            Some(behind) => behind,
            None => return None,
        };
        if self.add_export(vstd::slice::slice_subrange(bytes, start, end), sort, index, outermost) {
            Some(behind)
        } else {
            None
        }
    }

    fn item(&self, name: &[u8], sort: u8, index: usize) -> (recognised: bool)
        ensures
            recognised == is_item(name@, sort, index as int, self@),
    {
        if sort == 1 {
            plain(name)
        } else if sort == 3 {
            index < self.types.len() && (self.types[index] == Sort::Value || self.types[index] == Sort::Named)
        } else if sort == 5 {
            index < self.instances.len() && self.instances[index] == Origin::Made
        } else {
            true
        }
    }

    fn read_items(&self, bytes: &[u8], position: usize, count: usize) -> (found: Option<(bool, usize)>)
        requires
            position <= bytes@.len(),
        ensures
            match found {
                Some((known, next)) => items_at(bytes@, position as int, count as int, true, self@) == Some(
                    (known, next as int),
                ) && position <= next <= bytes@.len(),
                None => items_at(bytes@, position as int, count as int, true, self@) is None,
            },
    {
        let mut known: bool = true;
        let mut left: usize = count;
        let mut at: usize = position;
        while left > 0
            invariant
                position <= at <= bytes@.len(),
                items_at(bytes@, position as int, count as int, true, self@) == items_at(
                    bytes@,
                    at as int,
                    left as int,
                    known,
                    self@,
                ),
            decreases left,
        {
            let (start, end) = match read_name(bytes, at) {
                Some(bounds) => bounds,
                None => return None,
            };
            let (sort, index, next) = match read_item(bytes, end) {
                Some(item) => item,
                None => return None,
            };
            known = known && self.item(vstd::slice::slice_subrange(bytes, start, end), sort, index);
            at = next;
            left -= 1;
        }
        Some((known, at))
    }

    fn read_instance(&mut self, bytes: &'a [u8], position: usize) -> (next: Option<usize>)
        ensures
            match next {
                Some(next) => instance_at(bytes@, position as int, old(self)@) == Some((final(self)@, next as int))
                    && position < next <= bytes@.len(),
                None => instance_at(bytes@, position as int, old(self)@) is None,
            },
    {
        if position >= bytes.len() || bytes[position] > 1 {
            return None;
        }
        let (number, start) = match read_number(bytes, position + 1) {
            Some(number) => number,
            None => return None,
        };
        let (known, next) = if bytes[position] == 0 {
            match skip_list(Element::Argument, bytes, start) {
                Some(next) => (number < self.components.len() && self.components[number], next),
                None => return None,
            }
        } else {
            match self.read_items(bytes, start, number) {
                Some(items) => items,
                None => return None,
            }
        };
        self.add_instance(known);
        Some(next)
    }

    fn read_type(&mut self, bytes: &'a [u8], position: usize) -> (next: Option<usize>)
        ensures
            match next {
                Some(next) => type_at(bytes@, position as int, old(self)@) == Some((final(self)@, next as int))
                    && position < next <= bytes@.len(),
                None => type_at(bytes@, position as int, old(self)@) is None,
            },
    {
        let found = if position < bytes.len() && bytes[position] == 0x42 {
            match read_interface(bytes, position + 1, &self.types) {
                Some((true, next)) => Some((Sort::Interface, next)),
                Some((false, next)) => Some((Sort::Functions, next)),
                None => match skip_type(bytes, position, MAX_TYPE_NESTING) {
                    Some(next) => Some((Sort::Other, next)),
                    None => None,
                },
            }
        } else if position < bytes.len() && bytes[position] == 0x41 {
            match skip_type(bytes, position, MAX_TYPE_NESTING) {
                Some(next) => Some((Sort::Component, next)),
                None => None,
            }
        } else {
            read_plain_type(bytes, position)
        };
        match found {
            Some((sort, next)) => {
                self.types.push(sort);
                Some(next)
            },
            None => None,
        }
    }

    fn read_alias(&mut self, bytes: &'a [u8], position: usize) -> (next: Option<usize>)
        ensures
            match next {
                Some(next) => alias_at(bytes@, position as int, old(self)@) == Some((final(self)@, next as int))
                    && position < next <= bytes@.len(),
                None => alias_at(bytes@, position as int, old(self)@) is None,
            },
    {
        let next = match skip_alias(bytes, position) {
            Some(next) => next,
            None => return None,
        };
        let mut origin = Origin::Unknown;
        if bytes.len() - position >= 2 && bytes[position + 1] == 0 {
            match read_number(bytes, position + 2) {
                Some((index, _)) => {
                    if index < self.instances.len() {
                        origin = self.instances[index];
                    }
                },
                None => {},
            }
        }
        if bytes[position] == 3 {
            let sort = if origin == Origin::Unknown {
                Sort::Other
            } else {
                Sort::Named
            };
            self.types.push(sort);
        } else if bytes[position] == 4 {
            self.components.push(false);
        } else if bytes[position] == 5 {
            self.add_instance(origin == Origin::Made);
        }
        Some(next)
    }

    fn read_entry(&mut self, id: u8, bytes: &'a [u8], position: usize, outermost: bool) -> (next: Option<usize>)
        ensures
            match next {
                Some(next) => entry_at(id, bytes@, position as int, outermost, old(self)@) == Some(
                    (final(self)@, next as int),
                ) && position < next <= bytes@.len(),
                None => entry_at(id, bytes@, position as int, outermost, old(self)@) is None,
            },
    {
        if id == 5 {
            self.read_instance(bytes, position)
        } else if id == 6 {
            self.read_alias(bytes, position)
        } else if id == 7 {
            self.read_type(bytes, position)
        } else if id == 10 {
            self.read_import(bytes, position, outermost)
        } else if id == 11 {
            self.read_export(bytes, position, outermost)
        } else {
            None
        }
    }

    fn read_section(&mut self, id: u8, contents: &'a [u8], outermost: bool) -> (read: bool)
        ensures
            if read {
                with_section(id, contents@, outermost, old(self)@) == Some(final(self)@)
            } else {
                with_section(id, contents@, outermost, old(self)@) is None
            },
    {
        if id < 4 || id == 8 || id == 9 || id == 12 {
            return true;
        }
        let (count, start) = match read_number(contents, 0) {
            Some(number) => number,
            None => return false,
        };
        let mut left: usize = count;
        let mut at: usize = start;
        while left > 0
            invariant
                at <= contents@.len(),
                with_section(id, contents@, outermost, old(self)@) == with_entries(
                    id,
                    contents@,
                    at as int,
                    left as int,
                    outermost,
                    self@,
                ),
            decreases left,
        {
            at = match self.read_entry(id, contents, at, outermost) {
                Some(next) => next,
                None => return false,
            };
            left -= 1;
        }
        true
    }
}

fn recognise(bytes: &[u8], depth: usize) -> (shape: Option<Shape>)
    requires
        depth <= MAX_NESTING + 1,
    ensures
        shape == recognised_from(bytes@, 8, depth as int, no_scope()),
    decreases MAX_NESTING + 1 - depth,
{
    if depth > MAX_NESTING {
        return None;
    }
    if bytes.len() < 8 {
        return Some(Shape::Empty);
    }
    let mut scope = Scope::new();
    let mut sections = Sections::new(bytes);
    loop
        invariant
            sections.wf(),
            sections.bytes == bytes,
            depth <= MAX_NESTING,
            recognised_from(bytes@, 8, depth as int, no_scope()) == recognised_from(
                bytes@,
                sections.position as int,
                depth as int,
                scope@,
            ),
        decreases bytes@.len() - sections.position,
    {
        let section = match sections.next() {
            Err(_) => return None,
            Ok(None) => return Some(scope.shape),
            Ok(Some(section)) => section,
        };
        if section.id == 4 {
            let known: bool = recognise(section.contents, depth + 1).is_some();
            scope.components.push(known);
        } else if !scope.read_section(section.id, section.contents, depth == 0) {
            return None;
        }
    }
}

/// Returns what a component exports and imports as a whole, where it is recognised.
pub fn shape(component: &[u8]) -> (shape: Option<Shape>)
    ensures
        shape == shape_of(component@),
{
    recognise(component, 0)
}

/// A component that decodes is no package, and one that is a package does not decode.
pub proof fn law_shapes_exclude_each_other(component: Seq<u8>)
    ensures
        !(decodes(component) && is_package(component)),
        shape_of(component) is Some <==> decodes(component) || is_package(component),
{
    if let Some(shape) = shape_of(component) {
        assert(shape == Shape::Empty || shape == Shape::Mixed || shape == Shape::Package);
    }
}

/// A component is a package only as long as it exports component types alone, from the
/// first on.
pub proof fn law_shape_of_packages(before: Shape, name: Seq<u8>, packaged: bool)
    ensures
        shape_with(before, name, packaged) != Shape::Empty,
        shape_with(before, name, packaged) == Shape::Package <==> packaged && before != Shape::Mixed && (before
            == Shape::Empty ==> starts_package(name)),
{
}

proof fn lemma_silent_section(bytes: Seq<u8>, id: u8, length: Seq<u8>, contents: Seq<u8>, position: int, before: ScopeView)
    requires
        is_silent(id),
        leb_from(length, 0, 0) == Ok::<(int, int), Rejection>((contents.len() as int, length.len() as int)),
        0 <= position <= bytes.len(),
        recognised_from(bytes, position, 0, before) is Some,
    ensures
        recognised_from(bytes + (seq![id] + length + contents), position, 0, before) == recognised_from(
            bytes,
            position,
            0,
            before,
        ),
    decreases bytes.len() - position,
{
    let tail = seq![id] + length + contents;
    let longer = bytes + tail;
    if position < bytes.len() {
        lemma_section_extends(bytes, tail, position);
        let (own, start, end) = section_at(bytes, position)->Ok_0;
        let inner = bytes.subrange(start, end);
        if own == 4 {
            let known = recognised_from(inner, 8, 1, no_scope()) is Some;
            let after = ScopeView { components: before.components.push(known), ..before };
            lemma_silent_section(bytes, id, length, contents, end, after);
        } else {
            let after = with_section(own, inner, true, before)->Some_0;
            lemma_silent_section(bytes, id, length, contents, end, after);
        }
    } else {
        law_sections(bytes, id, length, contents.len() as int, contents);
        assert(longer =~= bytes + seq![id] + length + contents);
        reveal_with_fuel(recognised_from, 3);
    }
}

/// A custom section, a module, or another section that defines neither types nor instances
/// does not change what a component is.
pub proof fn law_silent_sections(component: Seq<u8>, id: u8, length: Seq<u8>, contents: Seq<u8>)
    requires
        id <= 3 || id == 8 || id == 9 || id == 12,
        leb_from(length, 0, 0) == Ok::<(int, int), Rejection>((contents.len() as int, length.len() as int)),
        component.len() >= 8,
        shape_of(component) is Some,
    ensures
        shape_of(component + (seq![id] + length + contents)) == shape_of(component),
        decodes(component + (seq![id] + length + contents)) == decodes(component),
{
    lemma_silent_section(component, id, length, contents, 8, no_scope());
}

/// A function has a plain name, or one that says the resource of its own interface that it
/// belongs to.
pub proof fn law_names_of_functions(name: Seq<u8>, resources: Seq<Seq<u8>>)
    ensures
        is_function(name, resources) ==> name.len() > 0 || resources.len() > 0,
        is_function(name, resources) ==> !name.contains(0x3a),
        is_plain(name) <==> name.len() > 0 && name[0] != 0x5b && !name.contains(0x3a),
        resources.len() == 0 ==> is_function(name, resources) == is_plain(name),
{
    if is_local(name) {
        assert(!name.contains(0x3a)) by {
            if name.contains(0x3a) {
                let at = choose|at: int| 0 <= at < name.len() && name[at] == 0x3a;
                assert(name[at] != 0x3a);
            }
        }
    } else {
        let at = choose|at: int| 0 <= at < name.len() && name[at] == 0x3a;
        assert(name.contains(name[at]));
    }
}

} // verus!
