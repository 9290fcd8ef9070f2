//! Names, keys and digests that identify extensions and releases.

use vstd::prelude::*;
use vstd::string::*;

use crate::primitives::{sha256, sha256_of};
use crate::text::{
    alphanumeric, byte_count, byte_len, chars_of, digit, is_alphanumeric, is_digit, is_lower, joined_by,
    law_joined_texts_split_again, law_pieces_join_again, lower, pieces, push_char, split_text, strip_prefix,
};

verus! {

/// The hexadecimal digit of a number below sixteen.
pub open spec fn hex_digit(value: u8) -> char {
    if value < 10 {
        (0x30 + value) as u8 as char
    } else {
        (0x61 + value - 10) as u8 as char
    }
}

/// Two lower-case hexadecimal digits for each byte.
pub open spec fn hex_of(bytes: Seq<u8>) -> Seq<char>
    decreases bytes.len(),
{
    if bytes.len() == 0 {
        Seq::empty()
    } else {
        hex_of(bytes.drop_last()).push(hex_digit(bytes.last() / 16)).push(hex_digit(bytes.last() % 16))
    }
}

fn to_hex_digit(value: u8) -> (character: char)
    requires
        value < 16,
    ensures
        character == hex_digit(value),
{
    if value < 10 {
        (0x30 + value) as char
    } else {
        (0x61 + value - 10) as char
    }
}

/// Appends two lower-case hexadecimal digits for each byte.
pub fn append_hex(output: &mut String, bytes: &[u8])
    ensures
        final(output)@ == old(output)@ + hex_of(bytes@),
{
    let mut index: usize = 0;
    let ghost before = output@;
    assert(bytes@.take(0) =~= Seq::empty());
    assert(before + Seq::<char>::empty() =~= before);
    while index < bytes.len()
        invariant
            index <= bytes.len(),
            before == old(output)@,
            output@ == before + hex_of(bytes@.take(index as int)),
        decreases bytes.len() - index,
    {
        let byte: u8 = bytes[index];
        let ghost written = output@;
        push_char(output, to_hex_digit(byte / 16));
        push_char(output, to_hex_digit(byte % 16));
        proof {
            let next = bytes@.take(index + 1);
            assert(next.drop_last() =~= bytes@.take(index as int));
            assert(next.last() == byte);
            assert(output@ =~= before + hex_of(next));
        }
        index += 1;
    }
    assert(bytes@.take(bytes@.len() as int) =~= bytes@);
}

/// Returns two lower-case hexadecimal digits for each byte.
pub fn hex(bytes: &[u8]) -> (output: String)
    ensures
        output@ == hex_of(bytes@),
{
    let mut output = String::new();
    append_hex(&mut output, bytes);
    assert(Seq::<char>::empty() + hex_of(bytes@) =~= hex_of(bytes@));
    output
}

/// Hexadecimal writing takes two characters a byte.
pub proof fn lemma_hex_len(bytes: Seq<u8>)
    ensures
        hex_of(bytes).len() == 2 * bytes.len(),
    decreases bytes.len(),
{
    if bytes.len() > 0 {
        lemma_hex_len(bytes.drop_last());
    }
}

/// A hash written out as a digest.
pub open spec fn digest_text(hash: Seq<u8>) -> Seq<char> {
    "sha256:"@ + hex_of(hash)
}

/// The digest that identifies exact bytes.
pub open spec fn digest_of(bytes: Seq<u8>) -> Seq<char> {
    digest_text(sha256_of(bytes))
}

/// Writes a hash out as a digest.
pub fn prefixed_digest(hash: &[u8]) -> (digest: String)
    ensures
        digest@ == digest_text(hash@),
{
    let mut value = "sha256:".to_owned();
    append_hex(&mut value, hash);
    value
}

/// Returns the digest that identifies exact bytes.
pub fn digest(bytes: &[u8]) -> (digest: String)
    ensures
        digest@ == digest_of(bytes@),
        is_digest(digest@),
{
    let hash = sha256(bytes);
    proof {
        lemma_digest_is_valid(bytes@);
    }
    prefixed_digest(hash.as_slice())
}

/// A lower-case hexadecimal digit.
pub open spec fn hex_character(character: char) -> bool {
    digit(character) || 'a' <= character <= 'f'
}

/// A text is a digest: its prefix and 64 lower-case hexadecimal digits.
pub open spec fn is_digest(text: Seq<char>) -> bool {
    &&& text.len() == 71
    &&& "sha256:"@.is_prefix_of(text)
    &&& forall|index: int| 7 <= index < 71 ==> hex_character(#[trigger] text[index])
}

/// Whether a text is a digest.
pub fn valid_digest(value: &str) -> (valid: bool)
    ensures
        valid == is_digest(value@),
{
    proof {
        reveal_strlit("sha256:");
    }
    let rest = match strip_prefix(value, "sha256:") {
        Some(rest) => rest,
        None => return false,
    };
    let characters = chars_of(rest.as_str());
    assert(value@ == "sha256:"@ + characters@);
    assert("sha256:"@.is_prefix_of(value@)) by {
        assert(value@.subrange(0, 7) =~= "sha256:"@);
    }
    if characters.len() != 64 {
        return false;
    }
    let mut index: usize = 0;
    while index < 64
        invariant
            index <= 64,
            characters@.len() == 64,
            "sha256:"@.len() == 7,
            value@ == "sha256:"@ + characters@,
            forall|i: int| 7 <= i < 7 + index ==> hex_character(#[trigger] value@[i]),
        decreases 64 - index,
    {
        let character = characters[index];
        assert(value@[7 + index] == character);
        if !(is_digit(character) || ('a' <= character && character <= 'f')) {
            return false;
        }
        index += 1;
    }
    true
}

/// What identifies a release key: up to 128 letters, digits, hyphens,
/// underscores and dots.
pub open spec fn is_key_id(text: Seq<char>) -> bool {
    &&& 0 < text.len() <= 128
    &&& forall|index: int| 0 <= index < text.len() ==> key_character(#[trigger] text[index])
}

/// A character of a key's name.
pub open spec fn key_character(character: char) -> bool {
    alphanumeric(character) || character == '-' || character == '_' || character == '.'
}

/// Whether a text identifies a release key.
pub fn key_id(value: &str) -> (valid: bool)
    ensures
        valid == is_key_id(value@),
{
    let characters = chars_of(value);
    if characters.len() == 0 || characters.len() > 128 {
        return false;
    }
    let mut index: usize = 0;
    while index < characters.len()
        invariant
            index <= characters.len(),
            characters@ == value@,
            forall|i: int| 0 <= i < index ==> key_character(#[trigger] value@[i]),
        decreases characters.len() - index,
    {
        let character = characters[index];
        if !(is_alphanumeric(character) || character == '-' || character == '_' || character == '.') {
            assert(!key_character(value@[index as int]));
            return false;
        }
        index += 1;
    }
    true
}

/// A part of a label: small letters and digits.
pub open spec fn is_name_part(part: Seq<char>) -> bool {
    part.len() > 0 && forall|index: int| 0 <= index < part.len() ==> name_character(#[trigger] part[index])
}

/// A character of a part.
pub open spec fn name_character(character: char) -> bool {
    lower(character) || digit(character)
}

/// A label: hyphenated parts, the first of which begins with a letter.
pub open spec fn is_label(label: Seq<char>) -> bool {
    &&& label.len() > 0 && lower(label[0])
    &&& forall|index: int|
        0 <= index < pieces(label, '-').len() ==> is_name_part(#[trigger] pieces(label, '-')[index])
}

/// The name of an extension: two or more labels between dots, in at most 128 bytes.
pub open spec fn is_extension_name(text: Seq<char>) -> bool {
    &&& byte_count(text) <= 128
    &&& pieces(text, '.').len() >= 2
    &&& forall|index: int| 0 <= index < pieces(text, '.').len() ==> is_label(#[trigger] pieces(text, '.')[index])
}

fn name_part(part: &str) -> (valid: bool)
    ensures
        valid == is_name_part(part@),
{
    let characters = chars_of(part);
    if characters.len() == 0 {
        return false;
    }
    let mut index: usize = 0;
    while index < characters.len()
        invariant
            index <= characters.len(),
            characters@ == part@,
            forall|i: int| 0 <= i < index ==> name_character(#[trigger] part@[i]),
        decreases characters.len() - index,
    {
        let character = characters[index];
        if !(is_lower(character) || is_digit(character)) {
            assert(!name_character(part@[index as int]));
            return false;
        }
        index += 1;
    }
    true
}

/// Whether a text is a label.
pub fn label(text: &str) -> (valid: bool)
    ensures
        valid == is_label(text@),
{
    let characters = chars_of(text);
    if characters.len() == 0 || !is_lower(characters[0]) {
        return false;
    }
    let parts = split_text(text, '-');
    let ghost expected = pieces(text@, '-');
    let mut index: usize = 0;
    while index < parts.len()
        invariant
            index <= parts.len(),
            expected == pieces(text@, '-'),
            parts@.map_values(|part: String| part@) == expected,
            forall|i: int| 0 <= i < index ==> is_name_part(#[trigger] expected[i]),
        decreases parts.len() - index,
    {
        assert(expected[index as int] == parts@[index as int]@);
        if !name_part(parts[index].as_str()) {
            return false;
        }
        index += 1;
    }
    assert(parts@.len() == expected.len());
    true
}

/// Whether a text names an extension.
pub fn extension_name(value: &str) -> (valid: bool)
    ensures
        valid == is_extension_name(value@),
{
    if byte_len(value) > 128 {
        return false;
    }
    let labels = split_text(value, '.');
    let ghost expected = pieces(value@, '.');
    assert(labels@.len() == expected.len()) by {
        assert(labels@.map_values(|part: String| part@).len() == labels@.len());
    }
    if labels.len() < 2 {
        return false;
    }
    let mut index: usize = 0;
    while index < labels.len()
        invariant
            index <= labels.len(),
            expected == pieces(value@, '.'),
            labels@.map_values(|part: String| part@) == expected,
            labels@.len() == expected.len(),
            forall|i: int| 0 <= i < index ==> is_label(#[trigger] expected[i]),
        decreases labels.len() - index,
    {
        assert(expected[index as int] == labels@[index as int]@);
        if !label(labels[index].as_str()) {
            return false;
        }
        index += 1;
    }
    true
}

/// What is revoked for good: a digest, or a release key.
pub open spec fn is_permanent(subject: Seq<char>) -> bool {
    is_digest(subject) || exists|key: Seq<char>| subject == "key:"@ + key && #[trigger] is_key_id(key)
}

/// Whether a revocation of `subject` is for good.
pub fn permanent_subject(subject: &str) -> (permanent: bool)
    ensures
        permanent == is_permanent(subject@),
{
    if valid_digest(subject) {
        return true;
    }
    match strip_prefix(subject, "key:") {
        Some(key) => {
            let valid = key_id(key.as_str());
            proof {
                assert forall|other: Seq<char>| subject@ == "key:"@ + other && #[trigger] is_key_id(other) implies valid by {
                    assert(other =~= subject@.skip("key:"@.len() as int));
                    assert(key@ =~= subject@.skip("key:"@.len() as int));
                }
            }
            valid
        },
        None => {
            proof {
                assert forall|key: Seq<char>| subject@ == "key:"@ + key && #[trigger] is_key_id(key) implies false by {
                    assert(subject@.subrange(0, "key:"@.len() as int) =~= "key:"@);
                }
            }
            false
        },
    }
}

/// A hash of 32 bytes written out is a digest.
proof fn lemma_digest_is_valid(bytes: Seq<u8>)
    requires
        sha256_of(bytes).len() == 32,
    ensures
        is_digest(digest_of(bytes)),
{
    reveal_strlit("sha256:");
    let hash = sha256_of(bytes);
    lemma_hex_len(hash);
    lemma_hex_characters(hash);
    let text = digest_of(bytes);
    assert(text.subrange(0, 7) =~= "sha256:"@);
    assert forall|index: int| 7 <= index < 71 implies hex_character(#[trigger] text[index]) by {
        assert(text[index] == hex_of(hash)[index - 7]);
    }
}

proof fn lemma_hex_digit(value: u8)
    requires
        value < 16,
    ensures
        hex_character(hex_digit(value)),
{
    if value < 10 {
        assert((0x30 + value) as u8 == 0x30 + value);
    } else {
        assert((0x61 + value - 10) as u8 == 0x61 + value - 10);
    }
}

proof fn lemma_hex_characters(bytes: Seq<u8>)
    ensures
        forall|index: int| 0 <= index < hex_of(bytes).len() ==> hex_character(#[trigger] hex_of(bytes)[index]),
    decreases bytes.len(),
{
    if bytes.len() > 0 {
        lemma_hex_characters(bytes.drop_last());
        lemma_hex_digit(bytes.last() / 16);
        lemma_hex_digit(bytes.last() % 16);
        let before = hex_of(bytes.drop_last());
        assert forall|index: int| 0 <= index < hex_of(bytes).len() implies hex_character(
            #[trigger] hex_of(bytes)[index],
        ) by {
            if index < before.len() {
                assert(hex_of(bytes)[index] == before[index]);
            }
        }
    }
}

/// The number that a lower-case hexadecimal digit stands for.
pub open spec fn hex_value(character: char) -> int {
    if '0' <= character <= '9' {
        character as int - '0' as int
    } else {
        character as int - 'a' as int + 10
    }
}

/// Every byte is written in two lower-case hexadecimal digits, from which it is read back.
pub proof fn law_hexadecimal_reads_back(bytes: Seq<u8>)
    ensures
        hex_of(bytes).len() == 2 * bytes.len(),
        forall|i: int|
            0 <= i < bytes.len() ==> #[trigger] bytes[i] as int == 16 * hex_value(hex_of(bytes)[2 * i]) + hex_value(
                hex_of(bytes)[2 * i + 1],
            ),
        forall|i: int|
            0 <= i < hex_of(bytes).len() ==> ('0' <= #[trigger] hex_of(bytes)[i] <= '9') || ('a' <= hex_of(bytes)[i] <= 'f'),
    decreases bytes.len(),
{
    if bytes.len() > 0 {
        let earlier = bytes.drop_last();
        law_hexadecimal_reads_back(earlier);
        let before = hex_of(earlier);
        let all = hex_of(bytes);
        assert(all.len() == before.len() + 2);
        assert forall|i: int| 0 <= i < bytes.len() implies #[trigger] bytes[i] as int == 16 * hex_value(all[2 * i])
            + hex_value(all[2 * i + 1]) by {
            if i < earlier.len() {
                assert(earlier[i] == bytes[i]);
                assert(all[2 * i] == before[2 * i] && all[2 * i + 1] == before[2 * i + 1]);
            } else {
                let last = bytes.last();
                assert(all[2 * i] == hex_digit(last / 16) && all[2 * i + 1] == hex_digit(last % 16));
                assert(last == 16 * (last / 16) + last % 16);
            }
        }
        assert forall|i: int| 0 <= i < all.len() implies ('0' <= #[trigger] all[i] <= '9') || ('a' <= all[i] <= 'f') by {
            if i < before.len() {
                assert(all[i] == before[i]);
            }
        }
    }
}

/// The digest of bytes is the prefix and the hexadecimal digits of their hash; bytes of one
/// digest have one hash.
pub proof fn law_digests_tell_hashes_apart(bytes: Seq<u8>, other: Seq<u8>)
    ensures
        digest_of(bytes) == "sha256:"@ + hex_of(sha256_of(bytes)),
        digest_of(bytes) == digest_of(other) && sha256_of(bytes).len() == sha256_of(other).len() ==> sha256_of(bytes)
            == sha256_of(other),
{
    law_hexadecimal_reads_back(sha256_of(bytes));
    law_hexadecimal_reads_back(sha256_of(other));
    if digest_of(bytes) == digest_of(other) && sha256_of(bytes).len() == sha256_of(other).len() {
        let prefix = "sha256:"@;
        let first = hex_of(sha256_of(bytes));
        let second = hex_of(sha256_of(other));
        assert(first =~= (prefix + first).skip(prefix.len() as int));
        assert(second =~= (prefix + second).skip(prefix.len() as int));
        assert(sha256_of(bytes) =~= sha256_of(other)) by {
            assert forall|i: int| 0 <= i < sha256_of(bytes).len() implies sha256_of(bytes)[i] == sha256_of(other)[i] by {
                assert(first[2 * i] == second[2 * i] && first[2 * i + 1] == second[2 * i + 1]);
            }
        }
    }
}

/// A digest is `sha256:` and 64 lower-case hexadecimal digits, and every such text is one.
pub proof fn law_digest_texts(text: Seq<char>)
    ensures
        is_digest(text) <==> exists|digits: Seq<char>| #[trigger]
            is_prefixed(text, "sha256:"@, digits) && digits.len() == 64 && forall|i: int|
                0 <= i < 64 ==> ('0' <= #[trigger] digits[i] <= '9') || ('a' <= digits[i] <= 'f'),
{
    reveal_strlit("sha256:");
    assert("sha256:"@.len() == 7);
    if is_digest(text) {
        let digits = text.skip(7);
        assert(text =~= "sha256:"@ + digits) by {
            assert(text.subrange(0, 7) =~= "sha256:"@);
        }
        assert(is_prefixed(text, "sha256:"@, digits));
        assert forall|i: int| 0 <= i < 64 implies ('0' <= #[trigger] digits[i] <= '9') || ('a' <= digits[i] <= 'f') by {
            assert(hex_character(text[i + 7]));
        }
    }
    if exists|digits: Seq<char>| #[trigger]
        is_prefixed(text, "sha256:"@, digits) && digits.len() == 64 && forall|i: int|
            0 <= i < 64 ==> ('0' <= #[trigger] digits[i] <= '9') || ('a' <= digits[i] <= 'f') {
        let digits = choose|digits: Seq<char>| #[trigger]
            is_prefixed(text, "sha256:"@, digits) && digits.len() == 64 && forall|i: int|
                0 <= i < 64 ==> ('0' <= #[trigger] digits[i] <= '9') || ('a' <= digits[i] <= 'f');
        assert("sha256:"@.is_prefix_of(text)) by {
            assert(text.subrange(0, 7) =~= "sha256:"@);
        }
        assert forall|i: int| 7 <= i < 71 implies hex_character(#[trigger] text[i]) by {
            assert(text[i] == digits[i - 7]);
        }
    }
}

/// The text is the prefix, and what stands behind it.
pub open spec fn is_prefixed(text: Seq<char>, prefix: Seq<char>, behind: Seq<char>) -> bool {
    text == prefix + behind
}

/// A key is named by one to 128 letters, digits, hyphens, underscores and dots.
pub proof fn law_key_names(text: Seq<char>)
    ensures
        is_key_id(text) <==> {
            &&& 1 <= text.len() <= 128
            &&& forall|i: int|
                0 <= i < text.len() ==> ('a' <= #[trigger] text[i] <= 'z') || ('A' <= text[i] <= 'Z') || ('0' <= text[i]
                    <= '9') || text[i] == '-' || text[i] == '_' || text[i] == '.'
        },
{
    if is_key_id(text) {
        assert forall|i: int| 0 <= i < text.len() implies ('a' <= #[trigger] text[i] <= 'z') || ('A' <= text[i] <= 'Z')
            || ('0' <= text[i] <= '9') || text[i] == '-' || text[i] == '_' || text[i] == '.' by {
            assert(key_character(text[i]));
        }
    } else if 1 <= text.len() <= 128 {
        let i = choose|i: int| 0 <= i < text.len() && !key_character(#[trigger] text[i]);
        assert(!key_character(text[i]));
    }
}

/// A part of a label, in small letters and digits.
pub open spec fn is_word(part: Seq<char>) -> bool {
    part.len() > 0 && forall|i: int| 0 <= i < part.len() ==> ('a' <= #[trigger] part[i] <= 'z') || ('0' <= part[i] <= '9')
}

/// Words of small letters and digits with single hyphens between them are a label, where the
/// first of them begins with a letter; every label is of this form.
pub proof fn law_labels(text: Seq<char>)
    ensures
        is_label(text) <==> exists|words: Seq<Seq<char>>| #[trigger] is_label_of(text, words),
{
    if is_label(text) {
        let words = pieces(text, '-');
        law_pieces_join_again(text, '-');
        assert forall|i: int| 0 <= i < words.len() implies is_word(#[trigger] words[i]) by {
            assert(is_name_part(words[i]));
            assert forall|j: int| 0 <= j < words[i].len() implies ('a' <= #[trigger] words[i][j] <= 'z') || ('0'
                <= words[i][j] <= '9') by {
                assert(name_character(words[i][j]));
            }
        }
        assert(is_label_of(text, words));
    }
    if exists|words: Seq<Seq<char>>| #[trigger] is_label_of(text, words) {
        let words = choose|words: Seq<Seq<char>>| #[trigger] is_label_of(text, words);
        assert forall|i: int| 0 <= i < words.len() implies !(#[trigger] words[i]).contains('-') by {
            assert(is_word(words[i]));
        }
        law_joined_texts_split_again(words, '-');
        assert forall|i: int| 0 <= i < pieces(text, '-').len() implies is_name_part(#[trigger] pieces(text, '-')[i]) by {
            assert(is_word(words[i]));
        }
    }
}

/// The text is these words with hyphens between them.
pub open spec fn is_label_of(text: Seq<char>, words: Seq<Seq<char>>) -> bool {
    &&& words.len() > 0
    &&& text == joined_by(words, seq!['-'])
    &&& text.len() > 0 && 'a' <= text[0] <= 'z'
    &&& forall|i: int| 0 <= i < words.len() ==> is_word(#[trigger] words[i])
}

/// Two or more labels with dots between them name an extension, where they fit 128 bytes;
/// every name is of this form.
pub proof fn law_extension_names(text: Seq<char>)
    ensures
        is_extension_name(text) <==> byte_count(text) <= 128 && exists|labels: Seq<Seq<char>>| #[trigger]
            is_name_of(text, labels),
{
    if is_extension_name(text) {
        law_pieces_join_again(text, '.');
        assert(is_name_of(text, pieces(text, '.')));
    }
    if exists|labels: Seq<Seq<char>>| #[trigger] is_name_of(text, labels) {
        let labels = choose|labels: Seq<Seq<char>>| #[trigger] is_name_of(text, labels);
        assert forall|i: int| 0 <= i < labels.len() implies !(#[trigger] labels[i]).contains('.') by {
            lemma_label_characters(labels[i]);
        }
        law_joined_texts_split_again(labels, '.');
    }
}

/// The text is these labels with dots between them.
pub open spec fn is_name_of(text: Seq<char>, labels: Seq<Seq<char>>) -> bool {
    &&& labels.len() >= 2
    &&& text == joined_by(labels, seq!['.'])
    &&& forall|i: int| 0 <= i < labels.len() ==> is_label(#[trigger] labels[i])
}

proof fn lemma_label_characters(label: Seq<char>)
    requires
        is_label(label),
    ensures
        !label.contains('.'),
{
    law_pieces_join_again(label, '-');
    let words = pieces(label, '-');
    assert forall|i: int| 0 <= i < words.len() implies !(#[trigger] words[i]).contains('.') by {
        assert(is_name_part(words[i]));
        assert forall|j: int| 0 <= j < words[i].len() implies words[i][j] != '.' by {
            assert(name_character(words[i][j]));
        }
    }
    lemma_joined_without(words, '.');
}

proof fn lemma_joined_without(words: Seq<Seq<char>>, character: char)
    requires
        character != '-',
        forall|i: int| 0 <= i < words.len() ==> !(#[trigger] words[i]).contains(character),
    ensures
        !joined_by(words, seq!['-']).contains(character),
    decreases words.len(),
{
    if words.len() > 1 {
        let earlier = words.drop_last();
        assert forall|i: int| 0 <= i < earlier.len() implies !(#[trigger] earlier[i]).contains(character) by {
            assert(earlier[i] == words[i]);
        }
        lemma_joined_without(earlier, character);
        let before = joined_by(earlier, seq!['-']);
        let all = joined_by(words, seq!['-']);
        assert(all == before + seq!['-'] + words.last());
        assert forall|i: int| 0 <= i < all.len() implies all[i] != character by {
            if i < before.len() {
                assert(before.contains(before[i]));
            } else if i > before.len() {
                let last = words[words.len() - 1];
                assert(last.contains(last[i - before.len() - 1]));
            }
        }
    } else if words.len() == 1 {
        assert(!words[0].contains(character));
    }
}

/// What is revoked for good is a digest, or `key:` and the name of a key.
pub proof fn law_permanent_subjects(subject: Seq<char>, key: Seq<char>)
    ensures
        is_digest(subject) ==> is_permanent(subject),
        is_key_id(key) ==> is_permanent("key:"@ + key),
        is_permanent(subject) ==> is_digest(subject) || exists|named: Seq<char>| #[trigger]
            is_prefixed(subject, "key:"@, named) && is_key_id(named),
        is_extension_name(subject) ==> !is_permanent(subject),
{
    if is_permanent(subject) && !is_digest(subject) {
        let named = choose|named: Seq<char>| subject == "key:"@ + named && #[trigger] is_key_id(named);
        assert(is_prefixed(subject, "key:"@, named));
    }
    if is_extension_name(subject) {
        lemma_no_colon(subject);
        reveal_strlit("key:");
        reveal_strlit("sha256:");
        if is_digest(subject) {
            assert("sha256:"@[6] == ':');
            assert(subject[6] == "sha256:"@[6]);
            assert(subject.contains(subject[6]));
        }
        if exists|named: Seq<char>| subject == "key:"@ + named && #[trigger] is_key_id(named) {
            let named = choose|named: Seq<char>| subject == "key:"@ + named && #[trigger] is_key_id(named);
            assert("key:"@[3] == ':');
            assert(subject[3] == ':');
            assert(subject.contains(subject[3]));
        }
    }
}

proof fn lemma_no_colon(text: Seq<char>)
    requires
        is_extension_name(text),
    ensures
        !text.contains(':'),
{
    let labels = pieces(text, '.');
    law_pieces_join_again(text, '.');
    assert forall|i: int| 0 <= i < labels.len() implies !(#[trigger] labels[i]).contains(':') by {
        let label = labels[i];
        assert(is_label(label));
        law_pieces_join_again(label, '-');
        let words = pieces(label, '-');
        assert forall|j: int| 0 <= j < words.len() implies !(#[trigger] words[j]).contains(':') by {
            assert(is_name_part(words[j]));
            assert forall|k: int| 0 <= k < words[j].len() implies words[j][k] != ':' by {
                assert(name_character(words[j][k]));
            }
        }
        lemma_joined_without(words, ':');
    }
    lemma_dotted_without(labels, ':');
}

proof fn lemma_dotted_without(labels: Seq<Seq<char>>, character: char)
    requires
        character != '.',
        forall|i: int| 0 <= i < labels.len() ==> !(#[trigger] labels[i]).contains(character),
    ensures
        !joined_by(labels, seq!['.']).contains(character),
    decreases labels.len(),
{
    if labels.len() > 1 {
        let earlier = labels.drop_last();
        assert forall|i: int| 0 <= i < earlier.len() implies !(#[trigger] earlier[i]).contains(character) by {
            assert(earlier[i] == labels[i]);
        }
        lemma_dotted_without(earlier, character);
        let before = joined_by(earlier, seq!['.']);
        let all = joined_by(labels, seq!['.']);
        assert(all == before + seq!['.'] + labels.last());
        assert forall|i: int| 0 <= i < all.len() implies all[i] != character by {
            if i < before.len() {
                assert(before.contains(before[i]));
            } else if i > before.len() {
                let last = labels[labels.len() - 1];
                assert(last.contains(last[i - before.len() - 1]));
            }
        }
    } else if labels.len() == 1 {
        assert(!labels[0].contains(character));
    }
}

} // verus!
