//! Text and byte helpers shared by every module.

use vstd::prelude::*;
use vstd::string::*;
use vstd::utf8::*;

verus! {

/// Reads `bytes` as UTF-8 through `std::str::from_utf8`: text comes back exactly
/// for valid UTF-8, and then encodes to the same bytes.
#[verifier::external_body]
pub(crate) fn utf8_text(bytes: &[u8]) -> (text: Option<&str>)
    ensures
        text is Some <==> valid_utf8(bytes@),
        text matches Some(text) ==> text.spec_bytes() == bytes@,
{
    std::str::from_utf8(bytes).ok()
}

/// Whether two byte strings hold the same bytes.
pub fn same_bytes(left: &[u8], right: &[u8]) -> (same: bool)
    ensures
        same == (left@ == right@),
{
    if left.len() != right.len() {
        return false;
    }
    let mut index: usize = 0;
    while index < left.len()
        invariant
            index <= left.len(),
            left.len() == right.len(),
            left@.subrange(0, index as int) =~= right@.subrange(0, index as int),
        decreases left.len() - index,
    {
        if left[index] != right[index] {
            return false;
        }
        assert(left@.subrange(0, index + 1) =~= left@.subrange(0, index as int).push(left@[index as int]));
        assert(right@.subrange(0, index + 1) =~= right@.subrange(0, index as int).push(right@[index as int]));
        index += 1;
    }
    assert(left@ =~= left@.subrange(0, left@.len() as int));
    assert(right@ =~= right@.subrange(0, right@.len() as int));
    true
}

/// Two texts with the same UTF-8 encoding are the same text.
pub proof fn lemma_same_encoding(left: Seq<char>, right: Seq<char>)
    requires
        encode_utf8(left) == encode_utf8(right),
    ensures
        left == right,
{
    encode_utf8_decode_utf8(left);
    encode_utf8_decode_utf8(right);
}

/// Whether two texts hold the same characters.
pub fn same_text(left: &str, right: &str) -> (same: bool)
    ensures
        same == (left@ == right@),
{
    let same = same_bytes(left.as_bytes(), right.as_bytes());
    proof {
        if same {
            lemma_same_encoding(left@, right@);
        }
    }
    same
}

/// The number of bytes that encode `text`.
pub open spec fn byte_count(text: Seq<char>) -> nat {
    encode_utf8(text).len()
}

/// Returns the number of bytes that encode `text`.
pub fn byte_len(text: &str) -> (length: usize)
    ensures
        length == byte_count(text@),
{
    text.as_bytes().len()
}

/// Appends one character, through `String::push`, which appends it to the end.
#[verifier::external_body]
pub(crate) fn push_char(text: &mut String, character: char)
    ensures
        final(text)@ == old(text)@.push(character),
{
    text.push(character);
}

/// Appends `suffix` to `text`.
pub fn push_text(text: &mut String, suffix: &str)
    ensures
        final(text)@ == old(text)@ + suffix@,
{
    text.append(suffix);
}

/// Returns `left` followed by `right`.
pub fn joined(left: &str, right: &str) -> (text: String)
    ensures
        text@ == left@ + right@,
{
    let mut text = left.to_owned();
    text.append(right);
    text
}

/// Returns the characters of `text`.
pub fn chars_of(text: &str) -> (characters: Vec<char>)
    ensures
        characters@ == text@,
{
    let mut characters: Vec<char> = Vec::new();
    for character in iter: text.chars()
        invariant
            characters@ == iter.seq().take(iter.index()),
            iter.seq() == text@,
    {
        let ghost before = characters@;
        characters.push(character);
        assert(iter.seq().take(iter.index() + 1) =~= before.push(character));
    }
    assert(characters@ =~= text@);
    characters
}

/// Returns the text of `characters`.
pub fn text_of(characters: &Vec<char>) -> (text: String)
    ensures
        text@ == characters@,
{
    let mut text = String::new();
    let mut index: usize = 0;
    while index < characters.len()
        invariant
            index <= characters.len(),
            text@ == characters@.take(index as int),
        decreases characters.len() - index,
    {
        push_char(&mut text, characters[index]);
        assert(characters@.take(index + 1) =~= characters@.take(index as int).push(characters@[index as int]));
        index += 1;
    }
    assert(characters@.take(characters@.len() as int) =~= characters@);
    text
}

/// `part` stands in `text` at `position`.
pub open spec fn occurs_at(text: Seq<char>, part: Seq<char>, position: int) -> bool {
    0 <= position && position + part.len() <= text.len() && text.subrange(position, position + part.len()) == part
}

/// `part` stands somewhere in `text`.
pub open spec fn occurs(text: Seq<char>, part: Seq<char>) -> bool {
    exists|position: int| occurs_at(text, part, position)
}

/// Whether `part` stands in `text` at `position`.
pub fn starts_at(text: &Vec<char>, part: &Vec<char>, position: usize) -> (found: bool)
    requires
        position <= text.len(),
    ensures
        found == occurs_at(text@, part@, position as int),
{
    if part.len() > text.len() - position {
        return false;
    }
    let mut index: usize = 0;
    while index < part.len()
        invariant
            index <= part.len(),
            position + part.len() <= text.len(),
            forall|at: int| 0 <= at < index ==> text@[position + at] == part@[at],
        decreases part.len() - index,
    {
        if text[position + index] != part[index] {
            assert(text@.subrange(position as int, position + part@.len())[index as int] != part@[index as int]);
            return false;
        }
        index += 1;
    }
    assert(text@.subrange(position as int, position + part@.len()) =~= part@);
    true
}

/// Whether `part` stands somewhere in `text`.
pub fn contains_text(text: &str, part: &str) -> (found: bool)
    ensures
        found == occurs(text@, part@),
{
    let whole = chars_of(text);
    let sought = chars_of(part);
    let mut position: usize = 0;
    loop
        invariant
            whole@ == text@,
            sought@ == part@,
            position <= whole.len(),
            forall|at: int| 0 <= at < position ==> !occurs_at(text@, part@, at),
        decreases whole.len() - position,
    {
        if starts_at(&whole, &sought, position) {
            return true;
        }
        if position == whole.len() {
            return false;
        }
        position += 1;
    }
}

/// `text` with every occurrence of `part`, from the left and without overlap,
/// replaced by `with`. An empty `part` is never replaced.
pub open spec fn replaced(text: Seq<char>, part: Seq<char>, with: Seq<char>) -> Seq<char>
    decreases text.len(),
{
    if part.len() == 0 || text.len() == 0 {
        text
    } else if occurs_at(text, part, 0) {
        with + replaced(text.skip(part.len() as int), part, with)
    } else {
        seq![text[0]] + replaced(text.skip(1), part, with)
    }
}

/// Replaces every occurrence of `part` in `text` by `with`.
pub fn replace_text(text: &str, part: &str, with: &str) -> (output: String)
    ensures
        output@ == replaced(text@, part@, with@),
{
    let text = chars_of(text);
    let part = chars_of(part);
    let mut output = String::new();
    if part.len() == 0 {
        return text_of(&text);
    }
    let mut position: usize = 0;
    assert(text@.skip(0) =~= text@);
    while position < text.len()
        invariant
            part.len() > 0,
            position <= text.len(),
            output@ + replaced(text@.skip(position as int), part@, with@) == replaced(text@, part@, with@),
        decreases text.len() - position,
    {
        let ghost rest = text@.skip(position as int);
        let ghost before = output@;
        assert(occurs_at(text@, part@, position as int) == occurs_at(rest, part@, 0)) by {
            if position + part@.len() <= text@.len() {
                assert(text@.subrange(position as int, position + part@.len()) =~= rest.subrange(0, part@.len() as int));
            }
        }
        if starts_at(&text, &part, position) {
            push_text(&mut output, with);
            position += part.len();
            proof {
                let after = text@.skip(position as int);
                assert(rest.skip(part@.len() as int) =~= after);
                assert(output@ + replaced(after, part@, with@) =~= before + (with@ + replaced(after, part@, with@)));
            }
        } else {
            push_char(&mut output, text[position]);
            proof {
                let after = text@.skip(position + 1);
                assert(rest.skip(1) =~= after);
                assert(output@ + replaced(after, part@, with@) =~= before + (seq![rest[0]] + replaced(
                    after,
                    part@,
                    with@,
                )));
            }
            position += 1;
        }
    }
    assert(text@.skip(position as int) =~= Seq::empty());
    assert(output@ =~= replaced(text@, part@, with@));
    output
}

/// Cuts `text` at a character boundary, through `String::truncate`, which keeps
/// the bytes before the boundary.
#[verifier::external_body]
fn keep_bytes(text: &mut String, length: usize)
    requires
        length <= byte_count(old(text)@),
        is_char_boundary(encode_utf8(old(text)@), length as int),
    ensures
        encode_utf8(final(text)@) == encode_utf8(old(text)@).subrange(0, length as int),
{
    text.truncate(length);
}

/// The longest beginning of `text` that takes at most `maximum` bytes.
pub open spec fn fitting(text: Seq<char>, maximum: int) -> Seq<char>
    decreases text.len(),
{
    if text.len() == 0 || encode_scalar(text[0] as u32).len() > maximum {
        Seq::empty()
    } else {
        seq![text[0]] + fitting(text.drop_first(), maximum - encode_scalar(text[0] as u32).len())
    }
}

/// Cuts `text` to at most `maximum` bytes, never inside a character.
pub fn truncate(text: &mut String, maximum: usize)
    ensures
        final(text)@ == fitting(old(text)@, maximum as int),
{
    let ghost whole = text@;
    let length = byte_len(text.as_str());
    let mut end: usize = if length < maximum {
        length
    } else {
        maximum
    };
    proof {
        lemma_fitting(whole, maximum as int);
        encode_utf8_valid_utf8(whole);
    }
    while !text.as_str().is_char_boundary(end)
        invariant
            text@ == whole,
            byte_count(fitting(whole, maximum as int)) <= end <= maximum,
            end <= byte_count(whole),
            is_char_boundary(encode_utf8(whole), byte_count(fitting(whole, maximum as int)) as int),
        decreases end,
    {
        end -= 1;
    }
    proof {
        lemma_fitting(whole, maximum as int);
    }
    keep_bytes(text, end);
    proof {
        lemma_same_encoding(text@, fitting(whole, maximum as int));
    }
}

proof fn lemma_fitting(text: Seq<char>, maximum: int)
    requires
        maximum >= 0,
    ensures
        ({
            let bytes = encode_utf8(text);
            let end = byte_count(fitting(text, maximum));
            &&& end <= maximum
            &&& end <= bytes.len()
            &&& is_char_boundary(bytes, end as int)
            &&& bytes.subrange(0, end as int) == encode_utf8(fitting(text, maximum))
            &&& forall|index: int| end < index <= maximum ==> !is_char_boundary(bytes, index)
        }),
    decreases text.len(),
{
    let bytes = encode_utf8(text);
    let short = fitting(text, maximum);
    encode_utf8_valid_utf8(text);
    if text.len() == 0 {
        assert(bytes.subrange(0, 0) =~= Seq::empty());
        reveal_with_fuel(is_char_boundary, 2);
    } else {
        let first = encode_scalar(text[0] as u32);
        let rest = text.drop_first();
        encode_utf8_first_scalar(text);
        assert(pop_first_scalar(bytes) =~= encode_utf8(rest));
        encode_utf8_valid_utf8(rest);
        if first.len() > maximum {
            assert(short =~= Seq::empty());
            assert(bytes.subrange(0, 0) =~= encode_utf8(short));
            assert forall|index: int| 0 < index <= maximum implies !is_char_boundary(bytes, index) by {
                reveal_with_fuel(is_char_boundary, 2);
            }
        } else {
            let left = maximum - first.len();
            lemma_fitting(rest, left);
            assert(short.drop_first() =~= fitting(rest, left));
            assert(encode_utf8(short) =~= first + encode_utf8(fitting(rest, left)));
            let inner = byte_count(fitting(rest, left)) as int;
            assert(bytes.subrange(0, first.len() + inner) =~= first + encode_utf8(rest).subrange(0, inner));
            reveal_with_fuel(is_char_boundary, 2);
            assert forall|index: int| first.len() + inner < index <= maximum implies !is_char_boundary(
                bytes,
                index,
            ) by {
                assert(!is_char_boundary(encode_utf8(rest), index - first.len()));
            }
        }
    }
}

/// What is cut from a text is its end: the rest begins the text and fits.
pub proof fn law_truncation(text: Seq<char>, maximum: int)
    requires
        maximum >= 0,
    ensures
        fitting(text, maximum).is_prefix_of(text),
        byte_count(fitting(text, maximum)) <= maximum,
        byte_count(text) <= maximum ==> fitting(text, maximum) == text,
    decreases text.len(),
{
    lemma_fitting(text, maximum);
    if text.len() > 0 {
        let first = encode_scalar(text[0] as u32);
        assert(byte_count(text) == first.len() + byte_count(text.drop_first()));
        if first.len() <= maximum {
            law_truncation(text.drop_first(), maximum - first.len());
            let rest = fitting(text.drop_first(), maximum - first.len());
            assert(seq![text[0]] + rest =~= text.subrange(0, rest.len() as int + 1)) by {
                assert(forall|i: int| 0 <= i < rest.len() ==> rest[i] == text.drop_first()[i]);
            }
            if byte_count(text) <= maximum {
                assert(seq![text[0]] + text.drop_first() =~= text);
            }
        }
    }
}

/// `left` comes before `right` in the order of their bytes.
pub open spec fn bytes_before(left: Seq<u8>, right: Seq<u8>) -> bool
    decreases left.len(),
{
    right.len() > 0 && (left.len() == 0 || left[0] < right[0] || (left[0] == right[0] && bytes_before(
        left.drop_first(),
        right.drop_first(),
    )))
}

/// `left` comes before `right` in the order of their UTF-8 bytes.
pub open spec fn text_before(left: Seq<char>, right: Seq<char>) -> bool {
    bytes_before(encode_utf8(left), encode_utf8(right))
}

/// Whether `left` comes before `right` in the order of their UTF-8 bytes.
pub fn is_before(left: &str, right: &str) -> (before: bool)
    ensures
        before == text_before(left@, right@),
{
    let first = left.as_bytes();
    let second = right.as_bytes();
    let mut index: usize = 0;
    assert(first@.skip(0) =~= first@);
    assert(second@.skip(0) =~= second@);
    while index < first.len()
        invariant
            first@ == encode_utf8(left@),
            second@ == encode_utf8(right@),
            index <= first.len(),
            index <= second.len(),
            text_before(left@, right@) == bytes_before(first@.skip(index as int), second@.skip(index as int)),
        decreases first.len() - index,
    {
        if index == second.len() {
            return false;
        }
        if first[index] < second[index] {
            return true;
        }
        if first[index] > second[index] {
            return false;
        }
        assert(first@.skip(index as int).drop_first() =~= first@.skip(index + 1));
        assert(second@.skip(index as int).drop_first() =~= second@.skip(index + 1));
        index += 1;
    }
    index < second.len()
}

/// The order of bytes is strict and total.
pub proof fn lemma_bytes_order(left: Seq<u8>, right: Seq<u8>)
    ensures
        !(bytes_before(left, right) && bytes_before(right, left)),
        bytes_before(left, right) || bytes_before(right, left) || left == right,
        left == right ==> !bytes_before(left, right),
    decreases left.len(),
{
    if left.len() > 0 && right.len() > 0 {
        lemma_bytes_order(left.drop_first(), right.drop_first());
        if left[0] == right[0] && left.drop_first() == right.drop_first() {
            assert(left =~= seq![left[0]] + left.drop_first());
            assert(right =~= seq![right[0]] + right.drop_first());
        }
    } else if left.len() == 0 && right.len() == 0 {
        assert(left =~= right);
    }
}

/// The order of bytes is transitive.
pub proof fn lemma_bytes_transitive(left: Seq<u8>, middle: Seq<u8>, right: Seq<u8>)
    requires
        bytes_before(left, middle),
        bytes_before(middle, right),
    ensures
        bytes_before(left, right),
    decreases left.len(),
{
    if left.len() > 0 && left[0] == middle[0] && middle[0] == right[0] {
        lemma_bytes_transitive(left.drop_first(), middle.drop_first(), right.drop_first());
    }
}

/// The order of texts is strict and total.
pub proof fn lemma_text_order(left: Seq<char>, right: Seq<char>)
    ensures
        !(text_before(left, right) && text_before(right, left)),
        text_before(left, right) || text_before(right, left) || left == right,
        left == right ==> !text_before(left, right),
{
    lemma_bytes_order(encode_utf8(left), encode_utf8(right));
    if encode_utf8(left) == encode_utf8(right) {
        lemma_same_encoding(left, right);
    }
}

/// The order of texts is transitive.
pub proof fn lemma_text_transitive(left: Seq<char>, middle: Seq<char>, right: Seq<char>)
    requires
        text_before(left, middle),
        text_before(middle, right),
    ensures
        text_before(left, right),
{
    lemma_bytes_transitive(encode_utf8(left), encode_utf8(middle), encode_utf8(right));
}

/// A letter `a` to `z`.
pub open spec fn lower(character: char) -> bool {
    'a' <= character <= 'z'
}

/// A letter `A` to `Z`.
pub open spec fn upper(character: char) -> bool {
    'A' <= character <= 'Z'
}

/// An ASCII character.
pub open spec fn is_ascii_character(character: char) -> bool {
    character <= '\u{7f}'
}

/// A text of ASCII characters alone.
pub open spec fn is_ascii_text(text: Seq<char>) -> bool {
    forall|index: int| 0 <= index < text.len() ==> is_ascii_character(#[trigger] text[index])
}

/// A digit `0` to `9`.
pub open spec fn digit(character: char) -> bool {
    '0' <= character <= '9'
}

/// An ASCII letter or digit.
pub open spec fn alphanumeric(character: char) -> bool {
    lower(character) || upper(character) || digit(character)
}

/// Whether `character` is a letter `a` to `z`.
pub fn is_lower(character: char) -> (result: bool)
    ensures
        result == lower(character),
{
    'a' <= character && character <= 'z'
}

/// Whether `character` is a letter `A` to `Z`.
pub fn is_upper(character: char) -> (result: bool)
    ensures
        result == upper(character),
{
    'A' <= character && character <= 'Z'
}

/// Whether `character` is a digit `0` to `9`.
pub fn is_digit(character: char) -> (result: bool)
    ensures
        result == digit(character),
{
    '0' <= character && character <= '9'
}

/// Whether `character` is an ASCII letter or digit.
pub fn is_alphanumeric(character: char) -> (result: bool)
    ensures
        result == alphanumeric(character),
{
    is_lower(character) || is_upper(character) || is_digit(character)
}

/// `character` as a capital letter, where it is a letter `a` to `z`.
pub open spec fn capital(character: char) -> char {
    if lower(character) {
        ((character as u8) - 32) as u8 as char
    } else {
        character
    }
}

/// Returns `character` as a capital letter, where it is a letter `a` to `z`.
pub fn to_capital(character: char) -> (result: char)
    ensures
        result == capital(character),
{
    if is_lower(character) {
        ((character as u8) - 32) as char
    } else {
        character
    }
}

/// `character` as a small letter, where it is a letter `A` to `Z`.
pub open spec fn small(character: char) -> char {
    if upper(character) {
        ((character as u8) + 32) as u8 as char
    } else {
        character
    }
}

/// Returns `character` as a small letter, where it is a letter `A` to `Z`.
pub fn to_small(character: char) -> (result: char)
    ensures
        result == small(character),
{
    if is_upper(character) {
        ((character as u8) + 32) as char
    } else {
        character
    }
}

/// A text in small letters, as far as its letters are `A` to `Z`.
pub open spec fn in_small_letters(text: Seq<char>) -> Seq<char> {
    text.map_values(|character: char| small(character))
}

/// The text in capital letters, as far as its letters are `a` to `z`.
pub open spec fn in_capital_letters(text: Seq<char>) -> Seq<char> {
    text.map_values(|character: char| capital(character))
}

/// Writes `text` in small letters, as far as its letters are `A` to `Z`.
pub fn write_small(text: &str) -> (result: String)
    ensures
        result@ == in_small_letters(text@),
{
    let characters = chars_of(text);
    let ghost expected = in_small_letters(text@);
    let mut result = String::new();
    let mut index: usize = 0;
    while index < characters.len()
        invariant
            index <= characters.len(),
            characters@ == text@,
            expected == in_small_letters(text@),
            result@ == expected.take(index as int),
        decreases characters.len() - index,
    {
        push_char(&mut result, to_small(characters[index]));
        assert(expected.take(index + 1) =~= expected.take(index as int).push(expected[index as int]));
        index += 1;
    }
    assert(expected.take(expected.len() as int) =~= expected);
    result
}

/// Returns the characters from `start` to before `end` as a text.
pub fn text_between(characters: &Vec<char>, start: usize, end: usize) -> (text: String)
    requires
        start <= end <= characters@.len(),
    ensures
        text@ == characters@.subrange(start as int, end as int),
{
    let mut text = String::new();
    let mut index: usize = start;
    while index < end
        invariant
            start <= index <= end <= characters@.len(),
            text@ == characters@.subrange(start as int, index as int),
        decreases end - index,
    {
        push_char(&mut text, characters[index]);
        assert(characters@.subrange(start as int, index + 1) =~= characters@.subrange(start as int, index as int).push(
            characters@[index as int],
        ));
        index += 1;
    }
    text
}

/// `text` before and behind the first `separator` in it.
pub open spec fn cut(text: Seq<char>, separator: char) -> Option<(Seq<char>, Seq<char>)>
    decreases text.len(),
{
    if text.len() == 0 {
        None
    } else if text[0] == separator {
        Some((Seq::empty(), text.drop_first()))
    } else {
        match cut(text.drop_first(), separator) {
            Some((before, behind)) => Some((seq![text[0]] + before, behind)),
            None => None,
        }
    }
}

/// The pieces of `text` between the separators in it.
pub open spec fn pieces(text: Seq<char>, separator: char) -> Seq<Seq<char>>
    decreases text.len(),
    via pieces_end
{
    match cut(text, separator) {
        Some((before, behind)) => seq![before] + pieces(behind, separator),
        None => seq![text],
    }
}

#[via_fn]
proof fn pieces_end(text: Seq<char>, separator: char) {
    lemma_cut(text, separator);
}

/// A cut text is what stands before, the separator, and what stands behind.
pub proof fn lemma_cut(text: Seq<char>, separator: char)
    ensures
        match cut(text, separator) {
            Some((before, behind)) => {
                &&& text == before.push(separator) + behind
                &&& !before.contains(separator)
                &&& before.len() + 1 + behind.len() == text.len()
            },
            None => !text.contains(separator),
        },
    decreases text.len(),
{
    if text.len() > 0 && text[0] != separator {
        lemma_cut(text.drop_first(), separator);
        match cut(text.drop_first(), separator) {
            Some((before, behind)) => {
                let whole = seq![text[0]] + before;
                assert(text =~= whole.push(separator) + behind) by {
                    assert(text =~= seq![text[0]] + text.drop_first());
                }
                assert forall|i: int| 0 <= i < whole.len() implies whole[i] != separator by {
                    if i > 0 {
                        assert(whole[i] == before[i - 1]);
                    }
                }
            },
            None => {
                assert forall|i: int| 0 <= i < text.len() implies text[i] != separator by {
                    if i > 0 {
                        assert(text[i] == text.drop_first()[i - 1]);
                    }
                }
            },
        }
    } else if text.len() > 0 {
        assert(text =~= Seq::<char>::empty().push(separator) + text.drop_first());
    }
}

/// Where the first separator stands decides how a text is cut.
pub proof fn lemma_cut_at(text: Seq<char>, separator: char, index: int)
    requires
        0 <= index < text.len(),
        text[index] == separator,
        forall|i: int| 0 <= i < index ==> text[i] != separator,
    ensures
        cut(text, separator) == Some((text.take(index), text.skip(index + 1))),
    decreases text.len(),
{
    if index == 0 {
        assert(text.take(0) =~= Seq::empty());
        assert(text.skip(1) =~= text.drop_first());
    } else {
        let rest = text.drop_first();
        assert forall|i: int| 0 <= i < index - 1 implies rest[i] != separator by {
            assert(rest[i] == text[i + 1]);
        }
        lemma_cut_at(rest, separator, index - 1);
        assert(seq![text[0]] + rest.take(index - 1) =~= text.take(index));
        assert(rest.skip(index) =~= text.skip(index + 1));
    }
}

/// Cuts `text` at the first `separator`.
pub fn cut_text(text: &str, separator: char) -> (parts: Option<(String, String)>)
    ensures
        match parts {
            Some((before, behind)) => cut(text@, separator) == Some((before@, behind@)),
            None => cut(text@, separator) is None,
        },
{
    let characters = chars_of(text);
    let mut index: usize = 0;
    while index < characters.len()
        invariant
            characters@ == text@,
            index <= characters.len(),
            forall|i: int| 0 <= i < index ==> text@[i] != separator,
        decreases characters.len() - index,
    {
        if characters[index] == separator {
            proof {
                lemma_cut_at(text@, separator, index as int);
                assert(text@.take(index as int) =~= text@.subrange(0, index as int));
                assert(text@.skip(index + 1) =~= text@.subrange(index + 1, text@.len() as int));
            }
            return Some(
                (text_between(&characters, 0, index), text_between(&characters, index + 1, characters.len())),
            );
        }
        index += 1;
    }
    proof {
        lemma_cut(text@, separator);
        if cut(text@, separator) is Some {
            let (before, behind) = cut(text@, separator)->Some_0;
            assert(text@[before.len() as int] == separator);
        }
    }
    None
}

/// There is at least one piece.
pub proof fn lemma_pieces_nonempty(text: Seq<char>, separator: char)
    ensures
        pieces(text, separator).len() >= 1,
{
    lemma_cut(text, separator);
}

/// Splits `text` at every `separator`.
pub fn split_text(text: &str, separator: char) -> (parts: Vec<String>)
    ensures
        parts@.map_values(|part: String| part@) == pieces(text@, separator),
{
    let mut parts: Vec<String> = Vec::new();
    let mut rest = text.to_owned();
    let ghost shown = |part: String| part@;
    assert(parts@.map_values(shown) =~= Seq::empty());
    assert(Seq::<Seq<char>>::empty() + pieces(text@, separator) =~= pieces(text@, separator));
    loop
        invariant
            shown == (|part: String| part@),
            parts@.map_values(shown) + pieces(rest@, separator) == pieces(text@, separator),
        decreases rest@.len(),
    {
        proof {
            lemma_cut(rest@, separator);
        }
        let ghost before = parts@;
        let ghost whole = rest@;
        match cut_text(rest.as_str(), separator) {
            Some((first, behind)) => {
                let ghost piece = first@;
                parts.push(first);
                rest = behind;
                proof {
                    assert(parts@.map_values(shown) =~= before.map_values(shown).push(piece));
                    assert(before.map_values(shown).push(piece) + pieces(rest@, separator) =~= before.map_values(shown)
                        + (seq![piece] + pieces(rest@, separator)));
                }
            },
            None => {
                parts.push(rest);
                proof {
                    assert(parts@.map_values(shown) =~= before.map_values(shown) + seq![whole]);
                }
                return parts;
            },
        }
    }
}

/// Takes `prefix` off the front of `text`.
pub fn strip_prefix(text: &str, prefix: &str) -> (rest: Option<String>)
    ensures
        match rest {
            Some(rest) => text@ == prefix@ + rest@,
            None => !prefix@.is_prefix_of(text@),
        },
{
    let whole = chars_of(text);
    let head = chars_of(prefix);
    if starts_at(&whole, &head, 0) {
        assert(text@ =~= prefix@ + text@.subrange(prefix@.len() as int, text@.len() as int));
        Some(text_between(&whole, head.len(), whole.len()))
    } else {
        proof {
            if prefix@.is_prefix_of(text@) {
                assert(text@.subrange(0, prefix@.len() as int) == prefix@);
            }
        }
        None
    }
}

/// The decimal digit of a number below ten.
pub open spec fn decimal_digit(value: nat) -> char {
    (0x30 + value) as u8 as char
}

/// A number written in decimal digits.
pub open spec fn decimal(value: nat) -> Seq<char>
    decreases value,
{
    if value < 10 {
        seq![decimal_digit(value)]
    } else {
        decimal(value / 10).push(decimal_digit(value % 10))
    }
}

/// Writes a number in decimal digits.
pub fn write_decimal(value: u64) -> (text: String)
    ensures
        text@ == decimal(value as nat),
    decreases value,
{
    let digit = (0x30 + (value % 10) as u8) as char;
    if value < 10 {
        let mut text = String::new();
        push_char(&mut text, digit);
        assert(text@ =~= seq![decimal_digit(value as nat)]);
        text
    } else {
        let mut text = write_decimal(value / 10);
        push_char(&mut text, digit);
        text
    }
}

/// `text` without the `trailing` characters at its end.
pub open spec fn without_trailing(text: Seq<char>, trailing: char) -> Seq<char>
    decreases text.len(),
{
    if text.len() > 0 && text.last() == trailing {
        without_trailing(text.drop_last(), trailing)
    } else {
        text
    }
}

/// Takes every `trailing` character off the end of `text`.
pub fn trim_trailing(text: &str, trailing: char) -> (trimmed: String)
    ensures
        trimmed@ == without_trailing(text@, trailing),
{
    let characters = chars_of(text);
    let mut end: usize = characters.len();
    assert(text@.take(end as int) =~= text@);
    while end > 0 && characters[end - 1] == trailing
        invariant
            characters@ == text@,
            end <= characters.len(),
            without_trailing(text@.take(end as int), trailing) == without_trailing(text@, trailing),
        decreases end,
    {
        assert(text@.take(end as int).drop_last() =~= text@.take(end - 1));
        end -= 1;
    }
    assert(text@.take(end as int) =~= text@.subrange(0, end as int));
    text_between(&characters, 0, end)
}

/// White space of Unicode.
pub open spec fn whitespace(character: char) -> bool {
    '\u{9}' <= character <= '\u{d}' || character == ' ' || character == '\u{85}' || character == '\u{a0}' || character
        == '\u{1680}' || '\u{2000}' <= character <= '\u{200a}' || character == '\u{2028}' || character == '\u{2029}'
        || character == '\u{202f}' || character == '\u{205f}' || character == '\u{3000}'
}

/// Whether `character` is white space of Unicode.
pub fn is_whitespace(character: char) -> (result: bool)
    ensures
        result == whitespace(character),
{
    ('\u{9}' <= character && character <= '\u{d}') || character == ' ' || character == '\u{85}' || character
        == '\u{a0}' || character == '\u{1680}' || ('\u{2000}' <= character && character <= '\u{200a}') || character
        == '\u{2028}' || character == '\u{2029}' || character == '\u{202f}' || character == '\u{205f}' || character
        == '\u{3000}'
}

/// `text` without white space at its start and its end.
pub open spec fn trimmed(text: Seq<char>) -> Seq<char>
    decreases text.len(),
{
    if text.len() == 0 {
        text
    } else if whitespace(text[0]) {
        trimmed(text.drop_first())
    } else if whitespace(text.last()) {
        trimmed(text.drop_last())
    } else {
        text
    }
}

/// Takes white space off both ends of `text`.
pub fn trim_text(text: &str) -> (result: String)
    ensures
        result@ == trimmed(text@),
{
    let characters = chars_of(text);
    let mut start: usize = 0;
    let mut end: usize = characters.len();
    assert(text@.subrange(0, end as int) =~= text@);
    while start < end && is_whitespace(characters[start])
        invariant
            characters@ == text@,
            start <= end == characters.len(),
            trimmed(text@.subrange(start as int, end as int)) == trimmed(text@),
        decreases end - start,
    {
        assert(text@.subrange(start as int, end as int).drop_first() =~= text@.subrange(start + 1, end as int));
        start += 1;
    }
    while start < end && is_whitespace(characters[end - 1])
        invariant
            characters@ == text@,
            start <= end <= characters.len(),
            start < end ==> !whitespace(text@[start as int]),
            trimmed(text@.subrange(start as int, end as int)) == trimmed(text@),
        decreases end - start,
    {
        assert(text@.subrange(start as int, end as int).drop_last() =~= text@.subrange(start as int, end - 1));
        end -= 1;
    }
    text_between(&characters, start, end)
}

/// `text` before and behind the last `separator` in it.
pub open spec fn cut_last(text: Seq<char>, separator: char) -> Option<(Seq<char>, Seq<char>)>
    decreases text.len(),
{
    if text.len() == 0 {
        None
    } else if text.last() == separator {
        Some((text.drop_last(), Seq::empty()))
    } else {
        match cut_last(text.drop_last(), separator) {
            Some((before, behind)) => Some((before, behind.push(text.last()))),
            None => None,
        }
    }
}

proof fn lemma_cut_last(text: Seq<char>, separator: char, index: int)
    requires
        0 <= index <= text.len(),
        forall|i: int| index <= i < text.len() ==> text[i] != separator,
    ensures
        index > 0 && text[index - 1] == separator ==> cut_last(text, separator) == Some(
            (text.take(index - 1), text.skip(index)),
        ),
        index == 0 ==> cut_last(text, separator) is None,
    decreases text.len(),
{
    if text.len() > 0 && index < text.len() {
        lemma_cut_last(text.drop_last(), separator, index);
        if index > 0 {
            assert(text.drop_last().take(index - 1) =~= text.take(index - 1));
            assert(text.drop_last().skip(index).push(text.last()) =~= text.skip(index));
        }
    } else if text.len() > 0 {
        assert(text.skip(index) =~= Seq::empty());
        assert(text.drop_last() =~= text.take(index - 1));
    }
}

/// Cuts `text` at the last `separator`.
pub fn cut_last_text(text: &str, separator: char) -> (parts: Option<(String, String)>)
    ensures
        match parts {
            Some((before, behind)) => cut_last(text@, separator) == Some((before@, behind@)),
            None => cut_last(text@, separator) is None,
        },
{
    let characters = chars_of(text);
    let mut index: usize = characters.len();
    while index > 0
        invariant
            characters@ == text@,
            index <= characters.len(),
            forall|i: int| index <= i < text@.len() ==> text@[i] != separator,
        decreases index,
    {
        if characters[index - 1] == separator {
            proof {
                lemma_cut_last(text@, separator, index as int);
                assert(text@.take(index - 1) =~= text@.subrange(0, index - 1));
                assert(text@.skip(index as int) =~= text@.subrange(index as int, text@.len() as int));
            }
            return Some(
                (text_between(&characters, 0, index - 1), text_between(&characters, index, characters.len())),
            );
        }
        index -= 1;
    }
    proof {
        lemma_cut_last(text@, separator, 0);
    }
    None
}

/// A line without the carriage return before its line feed.
pub open spec fn without_return(line: Seq<char>) -> Seq<char> {
    if line.len() > 0 && line.last() == '\r' {
        line.drop_last()
    } else {
        line
    }
}

/// The lines of a text. The last one needs no line feed.
pub open spec fn lines_of(text: Seq<char>) -> Seq<Seq<char>> {
    let all = pieces(text, '\n');
    let ended = all.drop_last().map_values(|line: Seq<char>| without_return(line));
    if all.last().len() == 0 {
        ended
    } else {
        ended.push(all.last())
    }
}

/// Splits `text` into its lines.
pub fn split_lines(text: &str) -> (lines: Vec<String>)
    ensures
        lines@.map_values(|line: String| line@) == lines_of(text@),
{
    let parts = split_text(text, '\n');
    let ghost all = pieces(text@, '\n');
    proof {
        lemma_pieces_nonempty(text@, '\n');
        assert(parts@.map_values(|part: String| part@).len() == parts@.len());
        assert forall|i: int| 0 <= i < parts@.len() implies all[i] == #[trigger] parts@[i]@ by {
            assert(parts@.map_values(|part: String| part@)[i] == parts@[i]@);
        }
    }
    let ghost ended = all.drop_last().map_values(|line: Seq<char>| without_return(line));
    let mut lines: Vec<String> = Vec::new();
    let mut index: usize = 0;
    while index + 1 < parts.len()
        invariant
            index < parts.len(),
            all.len() == parts@.len(),
            forall|i: int| 0 <= i < parts@.len() ==> all[i] == #[trigger] parts@[i]@,
            ended == all.drop_last().map_values(|line: Seq<char>| without_return(line)),
            lines@.len() == index,
            forall|i: int| 0 <= i < index ==> (#[trigger] lines@[i])@ == ended[i],
        decreases parts.len() - index,
    {
        let characters = chars_of(parts[index].as_str());
        assert(ended[index as int] == without_return(parts@[index as int]@));
        if characters.len() > 0 && characters[characters.len() - 1] == '\r' {
            assert(characters@.drop_last() =~= characters@.subrange(0, characters@.len() - 1));
            lines.push(text_between(&characters, 0, characters.len() - 1));
        } else {
            lines.push(parts[index].clone());
        }
        index += 1;
    }
    let ghost before = lines@;
    if !parts[index].as_str().is_empty() {
        lines.push(parts[index].clone());
    }
    proof {
        let shown = lines@.map_values(|line: String| line@);
        assert(before.len() == ended.len());
        assert(shown =~= lines_of(text@));
    }
    lines
}

/// The texts one after the other, with `separator` between them.
pub open spec fn joined_by(parts: Seq<Seq<char>>, separator: Seq<char>) -> Seq<char>
    decreases parts.len(),
{
    if parts.len() == 0 {
        Seq::empty()
    } else if parts.len() == 1 {
        parts[0]
    } else {
        joined_by(parts.drop_last(), separator) + separator + parts.last()
    }
}

/// Writes the texts one after the other, with `separator` between them.
pub fn join_texts(parts: &Vec<String>, separator: &str) -> (text: String)
    ensures
        text@ == joined_by(parts@.map_values(|part: String| part@), separator@),
{
    let ghost shown = parts@.map_values(|part: String| part@);
    let mut text = String::new();
    let mut index: usize = 0;
    while index < parts.len()
        invariant
            index <= parts.len(),
            shown == parts@.map_values(|part: String| part@),
            text@ == joined_by(shown.take(index as int), separator@),
        decreases parts.len() - index,
    {
        assert(shown.take(index + 1).drop_last() =~= shown.take(index as int));
        assert(shown[index as int] == parts@[index as int]@);
        if index > 0 {
            push_text(&mut text, separator);
        } else {
            assert(text@ + parts@[0]@ =~= parts@[0]@);
        }
        push_text(&mut text, parts[index].as_str());
        index += 1;
    }
    assert(shown.take(shown.len() as int) =~= shown);
    text
}

/// `text` without white space at its start.
pub open spec fn trimmed_start(text: Seq<char>) -> Seq<char>
    decreases text.len(),
{
    if text.len() > 0 && whitespace(text[0]) {
        trimmed_start(text.drop_first())
    } else {
        text
    }
}

/// Whether `text` starts with `prefix` behind its white space.
pub fn starts_behind_space(text: &str, prefix: &str) -> (found: bool)
    ensures
        found == prefix@.is_prefix_of(trimmed_start(text@)),
{
    let characters = chars_of(text);
    let mut start: usize = 0;
    assert(text@.skip(0) =~= text@);
    while start < characters.len() && is_whitespace(characters[start])
        invariant
            characters@ == text@,
            start <= characters.len(),
            trimmed_start(text@.skip(start as int)) == trimmed_start(text@),
        decreases characters.len() - start,
    {
        assert(text@.skip(start as int).drop_first() =~= text@.skip(start + 1));
        start += 1;
    }
    let expected = chars_of(prefix);
    let found = starts_at(&characters, &expected, start);
    proof {
        let rest = text@.skip(start as int);
        if found {
            assert(rest.subrange(0, prefix@.len() as int) =~= text@.subrange(start as int, start + prefix@.len()));
        }
        if prefix@.is_prefix_of(rest) {
            assert(rest.subrange(0, prefix@.len() as int) =~= text@.subrange(start as int, start + prefix@.len()));
        }
    }
    found
}

/// What each of several texts says.
pub open spec fn texts(list: Seq<String>) -> Seq<Seq<char>> {
    list.map_values(|text: String| text@)
}

/// Whether a text is one of the list.
pub fn holds_text(list: &Vec<String>, text: &str) -> (found: bool)
    ensures
        found == texts(list@).contains(text@),
{
    let ghost shown = texts(list@);
    let mut index: usize = 0;
    while index < list.len()
        invariant
            index <= list.len(),
            shown == texts(list@),
            forall|i: int| 0 <= i < index ==> shown[i] != text@,
        decreases list.len() - index,
    {
        assert(shown[index as int] == list@[index as int]@);
        if same_text(list[index].as_str(), text) {
            return true;
        }
        index += 1;
    }
    false
}

/// A joined list goes on with the separator and the rest behind its first part.
proof fn lemma_joined_first(first: Seq<char>, rest: Seq<Seq<char>>, separator: Seq<char>)
    requires
        rest.len() > 0,
    ensures
        joined_by(seq![first] + rest, separator) == first + separator + joined_by(rest, separator),
    decreases rest.len(),
{
    let all = seq![first] + rest;
    assert(all.last() == rest.last());
    reveal_with_fuel(joined_by, 2);
    if rest.len() == 1 {
        assert(all.drop_last() =~= seq![first]);
        assert(joined_by(all, separator) =~= first + separator + joined_by(rest, separator));
    } else {
        assert(all.drop_last() =~= seq![first] + rest.drop_last());
        lemma_joined_first(first, rest.drop_last(), separator);
        assert(joined_by(all, separator) =~= first + separator + joined_by(rest, separator));
    }
}

/// The pieces of a text are joined by the separator again to that text, and none of them holds
/// the separator.
pub proof fn law_pieces_join_again(text: Seq<char>, separator: char)
    ensures
        joined_by(pieces(text, separator), seq![separator]) == text,
        pieces(text, separator).len() >= 1,
        forall|i: int| 0 <= i < pieces(text, separator).len() ==> !(#[trigger] pieces(text, separator)[i]).contains(separator),
    decreases text.len(),
{
    lemma_cut(text, separator);
    if let Some((before, behind)) = cut(text, separator) {
        law_pieces_join_again(behind, separator);
        lemma_joined_first(before, pieces(behind, separator), seq![separator]);
        assert(text =~= before + seq![separator] + behind);
    }
}

/// A list of texts without the separator is what the joined text is split into.
pub proof fn law_joined_texts_split_again(parts: Seq<Seq<char>>, separator: char)
    requires
        parts.len() > 0,
        forall|i: int| 0 <= i < parts.len() ==> !(#[trigger] parts[i]).contains(separator),
    ensures
        pieces(joined_by(parts, seq![separator]), separator) == parts,
    decreases parts.len(),
{
    let first = parts[0];
    let text = joined_by(parts, seq![separator]);
    assert(!first.contains(separator));
    if parts.len() == 1 {
        lemma_cut(first, separator);
        if let Some((before, behind)) = cut(first, separator) {
            assert(first[before.len() as int] == separator);
        }
        assert(parts =~= seq![first]);
    } else {
        let rest = parts.drop_first();
        assert(parts =~= seq![first] + rest);
        assert forall|i: int| 0 <= i < rest.len() implies !(#[trigger] rest[i]).contains(separator) by {
            assert(rest[i] == parts[i + 1]);
        }
        lemma_joined_first(first, rest, seq![separator]);
        law_joined_texts_split_again(rest, separator);
        let tail = joined_by(rest, seq![separator]);
        assert(text == first + seq![separator] + tail);
        assert(text[first.len() as int] == separator);
        assert forall|i: int| 0 <= i < first.len() implies text[i] != separator by {
            assert(text[i] == first[i]);
        }
        lemma_cut_at(text, separator, first.len() as int);
        lemma_cut(text, separator);
        let (before, behind) = cut(text, separator)->0;
        assert(before.len() == first.len()) by {
            if before.len() < first.len() {
                assert(text[before.len() as int] == separator);
            }
            if before.len() > first.len() {
                assert(before[first.len() as int] == text[first.len() as int]);
                assert(before.contains(separator));
            }
        }
        assert(before =~= first) by {
            assert forall|i: int| 0 <= i < first.len() implies before[i] == first[i] by {
                assert(before[i] == text[i] && first[i] == text[i]);
            }
        }
        assert(behind =~= tail) by {
            assert forall|i: int| 0 <= i < tail.len() implies behind[i] == tail[i] by {
                assert(behind[i] == text[first.len() + 1 + i]);
                assert(tail[i] == text[first.len() + 1 + i]);
            }
        }
    }
}

/// A number is written in decimal digits, without a zero before them; different numbers are
/// written differently, and the last digit counts the ones.
pub proof fn law_decimal_digits(value: nat, other: nat)
    ensures
        decimal(value).len() >= 1,
        forall|i: int| 0 <= i < decimal(value).len() ==> '0' <= #[trigger] decimal(value)[i] <= '9',
        decimal(value).last() as int - '0' as int == value % 10,
        value >= 10 ==> decimal(value).drop_last() == decimal(value / 10) && decimal(value)[0] != '0',
        decimal(value) == decimal(other) ==> value == other,
    decreases value,
{
    if value >= 10 {
        law_decimal_digits(value / 10, other / 10);
        assert(decimal(value).drop_last() =~= decimal(value / 10));
        assert forall|i: int| 0 <= i < decimal(value).len() implies '0' <= #[trigger] decimal(value)[i] <= '9' by {
            if i < decimal(value).len() - 1 {
                assert(decimal(value)[i] == decimal(value / 10)[i]);
            }
        }
        assert(decimal(value)[0] == decimal(value / 10)[0]);
    }
    if decimal(value) == decimal(other) {
        lemma_decimal_last(value);
        lemma_decimal_last(other);
        if value >= 10 && other >= 10 {
            assert(decimal(other).drop_last() =~= decimal(other / 10));
        }
        lemma_decimal_long(value);
        lemma_decimal_long(other);
    }
}

proof fn lemma_decimal_last(value: nat)
    ensures
        decimal(value).len() >= 1,
        decimal(value).last() as int == 0x30 + value % 10,
{
    if value >= 10 {
        lemma_decimal_long(value);
    }
}

proof fn lemma_decimal_long(value: nat)
    ensures
        decimal(value).len() >= 1,
        decimal(value).len() >= 2 <==> value >= 10,
    decreases value,
{
    if value >= 10 {
        lemma_decimal_long(value / 10);
    }
}

/// What stands between two places is left where white space alone stands around it.
pub open spec fn is_core(text: Seq<char>, left: Seq<char>, start: int, end: int) -> bool {
    &&& 0 <= start <= end <= text.len()
    &&& text.subrange(start, end) == left
    &&& forall|i: int| 0 <= i < start || end <= i < text.len() ==> whitespace(#[trigger] text[i])
}

proof fn lemma_core_behind(text: Seq<char>, left: Seq<char>, start: int, end: int)
    requires
        text.len() > 0,
        whitespace(text[0]),
        is_core(text.drop_first(), left, start, end),
    ensures
        is_core(text, left, start + 1, end + 1),
{
    let rest = text.drop_first();
    assert(text.subrange(start + 1, end + 1) =~= rest.subrange(start, end));
    assert forall|i: int| 0 <= i < start + 1 || end + 1 <= i < text.len() implies whitespace(#[trigger] text[i]) by {
        if i > 0 {
            assert(text[i] == rest[i - 1]);
        }
    }
}

proof fn lemma_core_before(text: Seq<char>, left: Seq<char>, start: int, end: int)
    requires
        text.len() > 0,
        whitespace(text.last()),
        is_core(text.drop_last(), left, start, end),
    ensures
        is_core(text, left, start, end),
{
    let rest = text.drop_last();
    assert(text.subrange(start, end) =~= rest.subrange(start, end));
    assert forall|i: int| 0 <= i < start || end <= i < text.len() implies whitespace(#[trigger] text[i]) by {
        if i < rest.len() {
            assert(text[i] == rest[i]);
        }
    }
}

/// What is left of a trimmed text stands in it, has no white space at its ends, and only white
/// space around it.
pub proof fn law_trimmed_text(text: Seq<char>)
    ensures
        exists|start: int, end: int| #[trigger] is_core(text, trimmed(text), start, end),
        trimmed(text).len() > 0 ==> !whitespace(trimmed(text)[0]) && !whitespace(trimmed(text).last()),
    decreases text.len(),
{
    if text.len() == 0 {
        assert(text.subrange(0, 0) =~= text);
        assert(is_core(text, trimmed(text), 0, 0));
    } else if whitespace(text[0]) {
        let rest = text.drop_first();
        law_trimmed_text(rest);
        let (start, end) = choose|start: int, end: int| #[trigger] is_core(rest, trimmed(rest), start, end);
        lemma_core_behind(text, trimmed(rest), start, end);
        assert(trimmed(text) == trimmed(rest));
        assert(is_core(text, trimmed(text), start + 1, end + 1));
    } else if whitespace(text.last()) {
        let rest = text.drop_last();
        law_trimmed_text(rest);
        let (start, end) = choose|start: int, end: int| #[trigger] is_core(rest, trimmed(rest), start, end);
        lemma_core_before(text, trimmed(rest), start, end);
        assert(trimmed(text) == trimmed(rest));
        assert(is_core(text, trimmed(text), start, end));
    } else {
        assert(text.subrange(0, text.len() as int) =~= text);
        assert(is_core(text, trimmed(text), 0, text.len() as int));
    }
}

/// A text without its trailing characters is a start of it that ends otherwise, and only such
/// characters stand behind it.
pub proof fn law_trailing_characters_are_taken_off(text: Seq<char>, trailing: char)
    ensures
        ({
            let left = without_trailing(text, trailing);
            &&& left.len() <= text.len()
            &&& text.take(left.len() as int) == left
            &&& left.len() > 0 ==> left.last() != trailing
            &&& forall|i: int| left.len() <= i < text.len() ==> #[trigger] text[i] == trailing
        }),
    decreases text.len(),
{
    if text.len() > 0 && text.last() == trailing {
        let rest = text.drop_last();
        law_trailing_characters_are_taken_off(rest, trailing);
        let left = without_trailing(rest, trailing);
        assert(text.take(left.len() as int) =~= rest.take(left.len() as int));
        assert forall|i: int| left.len() <= i < text.len() implies #[trigger] text[i] == trailing by {
            if i < rest.len() {
                assert(text[i] == rest[i]);
            }
        }
    } else {
        assert(text.take(text.len() as int) =~= text);
    }
}

/// A text is cut at its last separator, where it has one.
pub proof fn law_cut_at_the_last(text: Seq<char>, separator: char)
    ensures
        match cut_last(text, separator) {
            Some((before, behind)) => text == before + seq![separator] + behind && !behind.contains(separator),
            None => !text.contains(separator),
        },
    decreases text.len(),
{
    if text.len() > 0 {
        if text.last() == separator {
            assert(text =~= text.drop_last() + seq![separator] + Seq::<char>::empty());
        } else {
            law_cut_at_the_last(text.drop_last(), separator);
            assert(text =~= text.drop_last().push(text.last()));
            if let Some((before, behind)) = cut_last(text.drop_last(), separator) {
                assert(text =~= before + seq![separator] + behind.push(text.last()));
                assert forall|i: int| 0 <= i < behind.push(text.last()).len() implies behind.push(text.last())[i]
                    != separator by {
                    if i < behind.len() {
                        assert(behind.contains(behind[i]));
                    }
                }
            } else {
                assert forall|i: int| 0 <= i < text.len() implies text[i] != separator by {
                    if i < text.len() - 1 {
                        assert(text.drop_last().contains(text.drop_last()[i]));
                    }
                }
            }
        }
    }
}

/// Replacing one character by another changes it wherever it stands, and nothing else.
pub proof fn law_replaced_character(text: Seq<char>, from: char, to: char)
    ensures
        replaced(text, seq![from], seq![to]).len() == text.len(),
        forall|i: int|
            0 <= i < text.len() ==> #[trigger] replaced(text, seq![from], seq![to])[i] == if text[i] == from {
                to
            } else {
                text[i]
            },
    decreases text.len(),
{
    if text.len() > 0 {
        let rest = text.skip(1);
        law_replaced_character(rest, from, to);
        assert(seq![from].len() == 1);
        assert(occurs_at(text, seq![from], 0) == (text[0] == from)) by {
            if text[0] == from {
                assert(text.subrange(0, 1) =~= seq![from]);
            } else {
                assert(text.subrange(0, 1)[0] != from);
            }
        }
        assert forall|i: int| 0 <= i < text.len() implies #[trigger] replaced(text, seq![from], seq![to])[i] == if text[i]
            == from {
            to
        } else {
            text[i]
        } by {
            if i > 0 {
                assert(rest[i - 1] == text[i]);
                assert(replaced(rest, seq![from], seq![to])[i - 1] == if rest[i - 1] == from {
                    to
                } else {
                    rest[i - 1]
                });
            }
        }
    }
}

/// Letters change their case by their place in the alphabet; no other character changes.
pub proof fn law_letter_cases(text: Seq<char>, index: int)
    requires
        0 <= index < text.len(),
    ensures
        in_small_letters(text).len() == text.len(),
        in_capital_letters(text).len() == text.len(),
        'A' <= text[index] <= 'Z' ==> in_small_letters(text)[index] as int - 'a' as int == text[index] as int - 'A' as int,
        !('A' <= text[index] <= 'Z') ==> in_small_letters(text)[index] == text[index],
        'a' <= text[index] <= 'z' ==> in_capital_letters(text)[index] as int - 'A' as int == text[index] as int - 'a' as int,
        !('a' <= text[index] <= 'z') ==> in_capital_letters(text)[index] == text[index],
{
}

/// White space is the tab through the carriage return, the space, and beyond ASCII what
/// Unicode calls white space, by its code points.
pub proof fn law_white_space(character: char)
    ensures
        whitespace(character) <==> {
            let point = character as int;
            ||| 9 <= point <= 13
            ||| point == 32
            ||| point == 0x85
            ||| point == 0xa0
            ||| point == 0x1680
            ||| 0x2000 <= point <= 0x200a
            ||| 0x2028 <= point <= 0x2029
            ||| point == 0x202f
            ||| point == 0x205f
            ||| point == 0x3000
        },
{
}

/// A line ends at its line feed, a carriage return before it left out; what follows the
/// last line feed is a line where there is anything.
pub proof fn law_lines(line: Seq<char>, rest: Seq<char>)
    requires
        !line.contains('\n'),
    ensures
        lines_of(Seq::empty()).len() == 0,
        line.len() > 0 ==> lines_of(line) == seq![line],
        lines_of(line + seq!['\n'] + rest) == seq![
            if line.len() > 0 && line.last() == '\r' {
                line.drop_last()
            } else {
                line
            },
        ] + lines_of(rest),
{
    let text = line + seq!['\n'] + rest;
    let none = Seq::<char>::empty();
    lemma_cut(none, '\n');
    assert(pieces(none, '\n') =~= seq![none]);
    assert(pieces(none, '\n').last() == none);
    assert(lines_of(none) =~= Seq::empty());
    lemma_cut(line, '\n');
    if let Some((before, behind)) = cut(line, '\n') {
        assert(line[before.len() as int] == '\n');
    }
    assert(pieces(line, '\n') =~= seq![line]);
    if line.len() > 0 {
        assert(pieces(line, '\n').last() == line);
        assert(lines_of(line) =~= seq![line]);
    }
    assert forall|i: int| 0 <= i < line.len() implies text[i] != '\n' by {
        assert(text[i] == line[i]);
    }
    assert(text[line.len() as int] == '\n');
    lemma_cut_at(text, '\n', line.len() as int);
    assert(text.take(line.len() as int) =~= line);
    assert(text.skip(line.len() as int + 1) =~= rest);
    let all = pieces(text, '\n');
    let others = pieces(rest, '\n');
    lemma_pieces_nonempty(rest, '\n');
    assert(all == seq![line] + others);
    assert(all.last() == others.last());
    assert(all.drop_last() =~= seq![line] + others.drop_last());
    assert(lines_of(text) =~= seq![without_return(line)] + lines_of(rest));
}

/// What is left of a text behind the white space at its start begins with none.
pub proof fn law_trimmed_starts(space: char, text: Seq<char>)
    ensures
        whitespace(space) ==> trimmed_start(seq![space] + text) == trimmed_start(text),
        !whitespace(space) ==> trimmed_start(seq![space] + text) == seq![space] + text,
        trimmed_start(Seq::empty()).len() == 0,
{
    assert((seq![space] + text).drop_first() =~= text);
}

/// Replacing one character by a text goes character by character, from the first on.
pub proof fn law_replaced_one_by_one(first: char, rest: Seq<char>, from: char, with: Seq<char>)
    ensures
        replaced(Seq::empty(), seq![from], with).len() == 0,
        replaced(seq![first] + rest, seq![from], with) == (if first == from {
            with
        } else {
            seq![first]
        }) + replaced(rest, seq![from], with),
{
    let text = seq![first] + rest;
    assert(text.skip(1) =~= rest);
    assert(seq![from].len() == 1);
    assert(occurs_at(text, seq![from], 0) == (first == from)) by {
        if first == from {
            assert(text.subrange(0, 1) =~= seq![from]);
        } else {
            assert(text.subrange(0, 1)[0] != from);
        }
    }
}

} // verus!
