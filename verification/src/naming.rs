//! How declared names are written when they are serialized.

use vstd::prelude::*;
use vstd::string::*;

use crate::text::{
    capital, chars_of, cut, in_capital_letters, in_small_letters, is_ascii_character, is_ascii_text,
    law_replaced_character, lemma_cut, lemma_cut_at, pieces, push_char, push_text, replace_text, replaced,
    same_text, small, split_text, text_between, upper,
};

verus! {

/// A character beyond ASCII is a capital letter of Unicode.
pub uninterp spec fn capital_letter(character: char) -> bool;

/// The character is a capital letter: in ASCII one from `A` to `Z`.
pub open spec fn is_capital(character: char) -> bool {
    if is_ascii_character(character) {
        upper(character)
    } else {
        capital_letter(character)
    }
}

/// Asks `char::is_uppercase`. The answer depends on the character alone; of the ASCII
/// characters, the capital letters are those from `A` to `Z`.
#[verifier::external_body]
pub(crate) fn is_capital_letter(character: char) -> (capital: bool)
    ensures
        is_ascii_character(character) ==> capital == upper(character),
        !is_ascii_character(character) ==> capital == capital_letter(character),
{
    character.is_uppercase()
}

/// What a character beyond ASCII becomes in small letters.
pub uninterp spec fn lowered_character(character: char) -> Seq<char>;

/// What a character becomes in small letters.
pub open spec fn small_form(character: char) -> Seq<char> {
    if is_ascii_character(character) {
        seq![small(character)]
    } else {
        lowered_character(character)
    }
}

/// Writes a character in small letters with `char::to_lowercase`. What comes back
/// depends on the character alone; an ASCII character becomes its ASCII small letter,
/// where it is a capital letter, and stays otherwise.
#[verifier::external_body]
pub(crate) fn lower_character(character: char) -> (text: String)
    ensures
        is_ascii_character(character) ==> text@ == seq![small(character)],
        !is_ascii_character(character) ==> text@ == lowered_character(character),
{
    character.to_lowercase().to_string()
}

/// What a character beyond ASCII becomes in capital letters.
pub uninterp spec fn raised_character(character: char) -> Seq<char>;

/// What a character becomes in capital letters.
pub open spec fn capital_form(character: char) -> Seq<char> {
    if is_ascii_character(character) {
        seq![capital(character)]
    } else {
        raised_character(character)
    }
}

/// Writes a character in capital letters with `char::to_uppercase`. What comes back
/// depends on the character alone; an ASCII character becomes its ASCII capital letter,
/// where it is a small letter, and stays otherwise.
#[verifier::external_body]
pub(crate) fn raise_character(character: char) -> (text: String)
    ensures
        is_ascii_character(character) ==> text@ == seq![capital(character)],
        !is_ascii_character(character) ==> text@ == raised_character(character),
{
    character.to_uppercase().to_string()
}

/// What a text with characters beyond ASCII becomes in small letters.
pub uninterp spec fn lowered_text(text: Seq<char>) -> Seq<char>;

/// What a text becomes in small letters.
pub open spec fn small_text(text: Seq<char>) -> Seq<char> {
    if is_ascii_text(text) {
        in_small_letters(text)
    } else {
        lowered_text(text)
    }
}

/// Writes a text in small letters with `str::to_lowercase`. What comes back depends on
/// the text alone; an ASCII text becomes the ASCII small letters of its characters.
#[verifier::external_body]
pub(crate) fn lower_text(text: &str) -> (result: String)
    ensures
        is_ascii_text(text@) ==> result@ == in_small_letters(text@),
        !is_ascii_text(text@) ==> result@ == lowered_text(text@),
{
    text.to_lowercase()
}

/// What a text with characters beyond ASCII becomes in capital letters.
pub uninterp spec fn raised_text(text: Seq<char>) -> Seq<char>;

/// What a text becomes in capital letters.
pub open spec fn capital_text(text: Seq<char>) -> Seq<char> {
    if is_ascii_text(text) {
        in_capital_letters(text)
    } else {
        raised_text(text)
    }
}

/// Writes a text in capital letters with `str::to_uppercase`. What comes back depends on
/// the text alone; an ASCII text becomes the ASCII capital letters of its characters.
#[verifier::external_body]
pub(crate) fn raise_text(text: &str) -> (result: String)
    ensures
        is_ascii_text(text@) ==> result@ == in_capital_letters(text@),
        !is_ascii_text(text@) ==> result@ == raised_text(text@),
{
    text.to_uppercase()
}

/// A rule for serialized names.
#[derive(Clone, Copy, Debug, PartialEq, Eq, Structural)]
pub enum NameRule {
    Lower,
    Upper,
    Pascal,
    Camel,
    Snake,
    ScreamingSnake,
    Kebab,
    ScreamingKebab,
}

impl NameRule {
    /// The rule that a text stands for.
    pub open spec fn of_text(text: Seq<char>) -> Option<NameRule> {
        if text == "lowercase"@ {
            Some(NameRule::Lower)
        } else if text == "UPPERCASE"@ {
            Some(NameRule::Upper)
        } else if text == "PascalCase"@ {
            Some(NameRule::Pascal)
        } else if text == "camelCase"@ {
            Some(NameRule::Camel)
        } else if text == "snake_case"@ {
            Some(NameRule::Snake)
        } else if text == "SCREAMING_SNAKE_CASE"@ {
            Some(NameRule::ScreamingSnake)
        } else if text == "kebab-case"@ {
            Some(NameRule::Kebab)
        } else if text == "SCREAMING-KEBAB-CASE"@ {
            Some(NameRule::ScreamingKebab)
        } else {
            None
        }
    }

    /// Returns the rule that a text stands for.
    pub fn parse(text: &str) -> (rule: Option<NameRule>)
        ensures
            rule == NameRule::of_text(text@),
    {
        if same_text(text, "lowercase") {
            Some(NameRule::Lower)
        } else if same_text(text, "UPPERCASE") {
            Some(NameRule::Upper)
        } else if same_text(text, "PascalCase") {
            Some(NameRule::Pascal)
        } else if same_text(text, "camelCase") {
            Some(NameRule::Camel)
        } else if same_text(text, "snake_case") {
            Some(NameRule::Snake)
        } else if same_text(text, "SCREAMING_SNAKE_CASE") {
            Some(NameRule::ScreamingSnake)
        } else if same_text(text, "kebab-case") {
            Some(NameRule::Kebab)
        } else if same_text(text, "SCREAMING-KEBAB-CASE") {
            Some(NameRule::ScreamingKebab)
        } else {
            None
        }
    }
}

/// The name of a variant in small letters, an underscore before each capital letter but
/// the first character.
pub open spec fn snake_of(name: Seq<char>) -> Seq<char>
    decreases name.len(),
{
    if name.len() == 0 {
        Seq::empty()
    } else {
        let before = snake_of(name.drop_last());
        let parted = if name.len() > 1 && is_capital(name.last()) {
            before.push('_')
        } else {
            before
        };
        parted + small_form(name.last())
    }
}

fn write_snake(name: &str) -> (snake: String)
    ensures
        snake@ == snake_of(name@),
{
    let characters = chars_of(name);
    let mut snake = String::new();
    let mut index: usize = 0;
    assert(name@.take(0) =~= Seq::empty());
    while index < characters.len()
        invariant
            index <= characters.len(),
            characters@ == name@,
            snake@ == snake_of(name@.take(index as int)),
        decreases characters.len() - index,
    {
        assert(name@.take(index + 1).drop_last() =~= name@.take(index as int));
        if index > 0 && is_capital_letter(characters[index]) {
            push_char(&mut snake, '_');
        }
        push_text(&mut snake, lower_character(characters[index]).as_str());
        index += 1;
    }
    assert(name@.take(name@.len() as int) =~= name@);
    snake
}

/// A text whose first character is a capital letter.
pub open spec fn begun_high(text: Seq<char>) -> Seq<char> {
    if text.len() == 0 {
        text
    } else {
        capital_form(text[0]) + text.skip(1)
    }
}

/// A text whose first character is a small letter.
pub open spec fn begun_low(text: Seq<char>) -> Seq<char> {
    if text.len() == 0 {
        text
    } else {
        small_form(text[0]) + text.skip(1)
    }
}

fn begin(text: &str, high: bool) -> (begun: String)
    ensures
        begun@ == if high {
            begun_high(text@)
        } else {
            begun_low(text@)
        },
{
    let characters = chars_of(text);
    if characters.len() == 0 {
        return text.to_owned();
    }
    let mut begun = if high {
        raise_character(characters[0])
    } else {
        lower_character(characters[0])
    };
    push_text(&mut begun, text_between(&characters, 1, characters.len()).as_str());
    assert(text@.skip(1) =~= text@.subrange(1, text@.len() as int));
    begun
}

/// The first `end` words one after the other, each begun with a capital letter.
pub open spec fn pascal_of(words: Seq<Seq<char>>, end: int) -> Seq<char>
    decreases end,
{
    if end <= 0 {
        Seq::empty()
    } else {
        pascal_of(words, end - 1) + begun_high(words[end - 1])
    }
}

fn write_pascal(name: &str) -> (text: String)
    ensures
        text@ == pascal_of(pieces(name@, '_'), pieces(name@, '_').len() as int),
{
    let words = split_text(name, '_');
    let ghost expected = pieces(name@, '_');
    let mut text = String::new();
    let mut index: usize = 0;
    while index < words.len()
        invariant
            index <= words.len(),
            expected == pieces(name@, '_'),
            words@.map_values(|word: String| word@) == expected,
            text@ == pascal_of(expected, index as int),
        decreases words.len() - index,
    {
        assert(expected[index as int] == words@[index as int]@);
        push_text(&mut text, begin(words[index].as_str(), true).as_str());
        index += 1;
    }
    assert(words@.len() == expected.len());
    text
}

/// How a field or a variant is written under a rule.
pub open spec fn renamed(name: Seq<char>, rule: Option<NameRule>, variant: bool) -> Seq<char> {
    let snake = if variant {
        snake_of(name)
    } else {
        name
    };
    let pascal = if variant {
        name
    } else {
        pascal_of(pieces(name, '_'), pieces(name, '_').len() as int)
    };
    match rule {
        None => name,
        Some(NameRule::Lower) => if variant {
            small_text(name)
        } else {
            name
        },
        Some(NameRule::Upper) => capital_text(name),
        Some(NameRule::Pascal) => pascal,
        Some(NameRule::Camel) => begun_low(pascal),
        Some(NameRule::Snake) => snake,
        Some(NameRule::ScreamingSnake) => capital_text(snake),
        Some(NameRule::Kebab) => replaced(snake, "_"@, "-"@),
        Some(NameRule::ScreamingKebab) => capital_text(replaced(snake, "_"@, "-"@)),
    }
}

/// Writes the name of a field or a variant under a rule.
pub fn rename(name: &str, rule: Option<NameRule>, variant: bool) -> (text: String)
    ensures
        text@ == renamed(name@, rule, variant),
{
    let rule = match rule {
        None => return name.to_owned(),
        Some(rule) => rule,
    };
    let snake = if variant {
        write_snake(name)
    } else {
        name.to_owned()
    };
    match rule {
        NameRule::Lower => {
            if variant {
                lower_text(name)
            } else {
                name.to_owned()
            }
        },
        NameRule::Upper => raise_text(name),
        NameRule::Snake => snake,
        NameRule::ScreamingSnake => raise_text(snake.as_str()),
        NameRule::Kebab => replace_text(snake.as_str(), "_", "-"),
        NameRule::ScreamingKebab => raise_text(replace_text(snake.as_str(), "_", "-").as_str()),
        NameRule::Pascal => {
            if variant {
                name.to_owned()
            } else {
                write_pascal(name)
            }
        },
        NameRule::Camel => {
            if variant {
                begin(name, false)
            } else {
                begin(write_pascal(name).as_str(), false)
            }
        },
    }
}

/// Without a rule a name stays what it is, and a variant is written in Pascal case as it
/// is declared.
pub proof fn law_declared_names_stay(name: Seq<char>, variant: bool)
    ensures
        renamed(name, None, variant) == name,
        renamed(name, Some(NameRule::Pascal), true) == name,
        renamed(name, Some(NameRule::Snake), false) == name,
{
}

/// The rules for names are called as they would write their own words.
pub proof fn law_rules_by_name(text: Seq<char>)
    ensures
        NameRule::of_text(text) == Some(NameRule::Lower) <==> text == "lowercase"@,
        NameRule::of_text(text) == Some(NameRule::Upper) <==> text == "UPPERCASE"@,
        NameRule::of_text(text) == Some(NameRule::Pascal) <==> text == "PascalCase"@,
        NameRule::of_text(text) == Some(NameRule::Camel) <==> text == "camelCase"@,
        NameRule::of_text(text) == Some(NameRule::Snake) <==> text == "snake_case"@,
        NameRule::of_text(text) == Some(NameRule::ScreamingSnake) <==> text == "SCREAMING_SNAKE_CASE"@,
        NameRule::of_text(text) == Some(NameRule::Kebab) <==> text == "kebab-case"@,
        NameRule::of_text(text) == Some(NameRule::ScreamingKebab) <==> text == "SCREAMING-KEBAB-CASE"@,
{
    reveal_strlit("lowercase");
    reveal_strlit("UPPERCASE");
    reveal_strlit("PascalCase");
    reveal_strlit("camelCase");
    reveal_strlit("snake_case");
    reveal_strlit("SCREAMING_SNAKE_CASE");
    reveal_strlit("kebab-case");
    reveal_strlit("SCREAMING-KEBAB-CASE");
    assert("lowercase"@[0] != "UPPERCASE"@[0]);
    assert("lowercase"@[0] != "camelCase"@[0]);
    assert("UPPERCASE"@[0] != "camelCase"@[0]);
    assert("PascalCase"@[0] != "snake_case"@[0]);
    assert("PascalCase"@[0] != "kebab-case"@[0]);
    assert("snake_case"@[0] != "kebab-case"@[0]);
    assert("SCREAMING_SNAKE_CASE"@[9] != "SCREAMING-KEBAB-CASE"@[9]);
}

/// In snake case a variant grows with each character: a capital letter of ASCII becomes a
/// small one, with an underscore before it unless it is the first character, and any
/// other character of ASCII stays.
pub proof fn law_snake_case(name: Seq<char>, next: char)
    requires
        next <= '\u{7f}',
    ensures
        renamed(Seq::empty(), Some(NameRule::Snake), true) == Seq::<char>::empty(),
        !('A' <= next <= 'Z') ==> renamed(name.push(next), Some(NameRule::Snake), true) == renamed(
            name,
            Some(NameRule::Snake),
            true,
        ).push(next),
        'A' <= next <= 'Z' && name.len() > 0 ==> {
            let before = renamed(name, Some(NameRule::Snake), true);
            let after = renamed(name.push(next), Some(NameRule::Snake), true);
            &&& after.len() == before.len() + 2
            &&& before.is_prefix_of(after)
            &&& after[before.len() as int] == '_'
            &&& after.last() as int - 'a' as int == next as int - 'A' as int
        },
        'A' <= next <= 'Z' && name.len() == 0 ==> {
            let after = renamed(name.push(next), Some(NameRule::Snake), true);
            &&& after.len() == 1
            &&& after[0] as int - 'a' as int == next as int - 'A' as int
        },
{
    assert(name.push(next).drop_last() =~= name);
    if name.len() == 0 {
        assert(name =~= Seq::empty());
    }
}

/// Kebab case is snake case with hyphens in place of the underscores.
pub proof fn law_kebab_case(name: Seq<char>, variant: bool, index: int)
    requires
        0 <= index < renamed(name, Some(NameRule::Snake), variant).len(),
    ensures
        ({
            let snake = renamed(name, Some(NameRule::Snake), variant);
            let kebab = renamed(name, Some(NameRule::Kebab), variant);
            &&& kebab.len() == snake.len()
            &&& kebab[index] == if snake[index] == '_' {
                '-'
            } else {
                snake[index]
            }
        }),
{
    reveal_strlit("_");
    reveal_strlit("-");
    assert("_"@ =~= seq!['_']);
    assert("-"@ =~= seq!['-']);
    law_replaced_character(renamed(name, Some(NameRule::Snake), variant), '_', '-');
}

/// A name of ASCII that is shouted is the same name in capital letters: a field or a
/// variant in upper case, and what snake and kebab case write.
pub proof fn law_shouted_names(name: Seq<char>, variant: bool, rule: NameRule, shouted: NameRule)
    requires
        rule == NameRule::Snake && shouted == NameRule::ScreamingSnake || rule == NameRule::Kebab && shouted
            == NameRule::ScreamingKebab,
        is_ascii_text(renamed(name, Some(rule), variant)),
        is_ascii_text(name),
    ensures
        renamed(name, Some(shouted), variant) == in_capital_letters(renamed(name, Some(rule), variant)),
        renamed(name, Some(NameRule::Upper), variant) == in_capital_letters(name),
        renamed(name, Some(NameRule::Lower), true) == in_small_letters(name),
        renamed(name, Some(NameRule::Lower), false) == name,
{
}

proof fn lemma_pascal_split(words: Seq<Seq<char>>, first: Seq<char>, end: int)
    requires
        0 <= end <= words.len(),
    ensures
        pascal_of(seq![first] + words, end + 1) == begun_high(first) + pascal_of(words, end),
    decreases end,
{
    let all = seq![first] + words;
    if end == 0 {
        assert(pascal_of(all, 0) =~= Seq::empty());
        assert(pascal_of(all, 1) =~= begun_high(first));
        assert(pascal_of(words, 0) =~= Seq::empty());
    } else {
        lemma_pascal_split(words, first, end - 1);
        assert(all[end] == words[end - 1]);
        assert(begun_high(first) + (pascal_of(words, end - 1) + begun_high(words[end - 1])) =~= (begun_high(first)
            + pascal_of(words, end - 1)) + begun_high(words[end - 1]));
    }
}

/// In Pascal case the words of a field stand one after the other without their underscores,
/// each begun with a capital letter.
pub proof fn law_pascal_case(word: Seq<char>, rest: Seq<char>)
    requires
        !word.contains('_'),
    ensures
        ({
            let alone = renamed(word, Some(NameRule::Pascal), false);
            let behind = renamed(rest, Some(NameRule::Pascal), false);
            &&& renamed(word + seq!['_'] + rest, Some(NameRule::Pascal), false) == alone + behind
            &&& word.len() == 0 ==> alone.len() == 0
            &&& word.len() > 0 && 'a' <= word[0] <= 'z' ==> alone.len() == word.len() && alone.skip(1) == word.skip(1)
                && alone[0] as int - 'A' as int == word[0] as int - 'a' as int
            &&& word.len() > 0 && word[0] <= '\u{7f}' && !('a' <= word[0] <= 'z') ==> alone == word
        }),
{
    let text = word + seq!['_'] + rest;
    lemma_cut(word, '_');
    if let Some((before, behind)) = cut(word, '_') {
        assert(word[before.len() as int] == '_');
    }
    assert(pieces(word, '_') == seq![word]);
    assert(pascal_of(seq![word], 0) =~= Seq::empty());
    assert(pascal_of(seq![word], 1) =~= begun_high(word));
    assert forall|i: int| 0 <= i < word.len() implies text[i] != '_' by {
        assert(text[i] == word[i]);
    }
    assert(text[word.len() as int] == '_');
    lemma_cut_at(text, '_', word.len() as int);
    assert(text.take(word.len() as int) =~= word);
    assert(text.skip(word.len() as int + 1) =~= rest);
    assert(pieces(text, '_') == seq![word] + pieces(rest, '_'));
    lemma_pascal_split(pieces(rest, '_'), word, pieces(rest, '_').len() as int);
    if word.len() > 0 {
        assert(word =~= seq![word[0]] + word.skip(1));
        assert(begun_high(word).skip(1) =~= word.skip(1) || !is_ascii_character(word[0]));
    }
}

/// Camel case is Pascal case begun with a small letter.
pub proof fn law_camel_case(name: Seq<char>, variant: bool)
    ensures
        ({
            let pascal = renamed(name, Some(NameRule::Pascal), variant);
            let camel = renamed(name, Some(NameRule::Camel), variant);
            &&& pascal.len() == 0 ==> camel.len() == 0
            &&& pascal.len() > 0 && 'A' <= pascal[0] <= 'Z' ==> camel.len() == pascal.len() && camel.skip(1)
                == pascal.skip(1) && camel[0] as int - 'a' as int == pascal[0] as int - 'A' as int
            &&& pascal.len() > 0 && pascal[0] <= '\u{7f}' && !('A' <= pascal[0] <= 'Z') ==> camel == pascal
        }),
{
    let pascal = renamed(name, Some(NameRule::Pascal), variant);
    let camel = renamed(name, Some(NameRule::Camel), variant);
    if pascal.len() > 0 {
        assert(pascal =~= seq![pascal[0]] + pascal.skip(1));
        if is_ascii_character(pascal[0]) {
            assert(camel.skip(1) =~= pascal.skip(1));
        }
    }
}

} // verus!
