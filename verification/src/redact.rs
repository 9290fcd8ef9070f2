//! Taking issued tokens out of text and JSON values before they are kept.

use vstd::prelude::*;
use vstd::string::*;

use crate::json::{lemma_array, lemma_object, members_of, values_of, Json, JsonValue};
use crate::text::{byte_count, byte_len, contains_text, occurs, occurs_at, replace_text, replaced, same_text, texts};

verus! {

/// What stands in the place of a token.
pub const MARKER: &'static str = "[redacted]";

/// Some token stands in `text`.
pub open spec fn any_occurs(tokens: Seq<Seq<char>>, text: Seq<char>) -> bool {
    exists|index: int| 0 <= index < tokens.len() && occurs(text, #[trigger] tokens[index])
}

/// `text` with each token replaced by the marker, one token after the other.
pub open spec fn marked(text: Seq<char>, tokens: Seq<Seq<char>>) -> Seq<char>
    decreases tokens.len(),
{
    if tokens.len() == 0 {
        text
    } else {
        replaced(marked(text, tokens.drop_last()), tokens.last(), MARKER@)
    }
}

/// Some token that is not empty stands in `text`.
pub open spec fn leaks(tokens: Seq<Seq<char>>, text: Seq<char>) -> bool {
    exists|index: int| 0 <= index < tokens.len() && tokens[index].len() > 0 && occurs(text, #[trigger] tokens[index])
}

/// `text` without the tokens. Where the marker itself holds a token, or where
/// the marked text still holds one, nothing of the text is left.
pub open spec fn redacted(text: Seq<char>, tokens: Seq<Seq<char>>) -> Seq<char> {
    if any_occurs(tokens, MARKER@) && any_occurs(tokens, text) {
        Seq::empty()
    } else if leaks(tokens, marked(text, tokens)) {
        Seq::empty()
    } else {
        marked(text, tokens)
    }
}

/// `token` in its place among tokens that stand longest first.
pub open spec fn placed(tokens: Seq<Seq<char>>, token: Seq<char>) -> Seq<Seq<char>>
    decreases tokens.len(),
{
    if tokens.len() == 0 {
        seq![token]
    } else if byte_count(tokens.last()) >= byte_count(token) {
        tokens.push(token)
    } else {
        placed(tokens.drop_last(), token).push(tokens.last())
    }
}

/// The tokens with the longest first; tokens of one length keep their order.
pub open spec fn longest_first(tokens: Seq<Seq<char>>) -> Seq<Seq<char>>
    decreases tokens.len(),
{
    if tokens.len() == 0 {
        Seq::empty()
    } else {
        placed(longest_first(tokens.drop_last()), tokens.last())
    }
}

fn any_contained(tokens: &Vec<String>, text: &str) -> (found: bool)
    ensures
        found == any_occurs(texts(tokens@), text@),
{
    let mut index: usize = 0;
    while index < tokens.len()
        invariant
            index <= tokens.len(),
            forall|i: int| 0 <= i < index ==> !occurs(text@, #[trigger] texts(tokens@)[i]),
        decreases tokens.len() - index,
    {
        assert(texts(tokens@)[index as int] == tokens@[index as int]@);
        if contains_text(text, tokens[index].as_str()) {
            return true;
        }
        index += 1;
    }
    false
}

fn any_leaked(tokens: &Vec<String>, text: &str) -> (found: bool)
    ensures
        found == leaks(texts(tokens@), text@),
{
    let mut index: usize = 0;
    while index < tokens.len()
        invariant
            index <= tokens.len(),
            forall|i: int|
                0 <= i < index ==> !(texts(tokens@)[i].len() > 0 && occurs(text@, #[trigger] texts(tokens@)[i])),
        decreases tokens.len() - index,
    {
        assert(texts(tokens@)[index as int] == tokens@[index as int]@);
        if !tokens[index].as_str().is_empty() && contains_text(text, tokens[index].as_str()) {
            return true;
        }
        index += 1;
    }
    false
}

/// Replaces the tokens in `text`, one after the other in the given order.
pub fn redact_in_order(text: &str, tokens: &Vec<String>) -> (output: String)
    ensures
        output@ == redacted(text@, texts(tokens@)),
{
    if any_contained(tokens, MARKER) && any_contained(tokens, text) {
        return String::new();
    }
    let mut output = text.to_owned();
    let mut index: usize = 0;
    assert(texts(tokens@).take(0) =~= Seq::empty());
    while index < tokens.len()
        invariant
            index <= tokens.len(),
            output@ == marked(text@, texts(tokens@).take(index as int)),
        decreases tokens.len() - index,
    {
        output = replace_text(output.as_str(), tokens[index].as_str(), MARKER);
        proof {
            let next = texts(tokens@).take(index + 1);
            assert(next.drop_last() =~= texts(tokens@).take(index as int));
            assert(next.last() == tokens@[index as int]@);
        }
        index += 1;
    }
    assert(texts(tokens@).take(tokens@.len() as int) =~= texts(tokens@));
    if any_leaked(tokens, output.as_str()) {
        return String::new();
    }
    output
}

/// Puts a token among tokens that stand longest first.
fn place_token(tokens: &mut Vec<String>, token: String)
    ensures
        texts(final(tokens)@) == placed(texts(old(tokens)@), token@),
{
    let ghost before = tokens@;
    let ghost issued = token@;
    let mut index: usize = tokens.len();
    let length = byte_len(token.as_str());
    proof {
        assert(texts(before).take(before.len() as int) =~= texts(before));
        assert(placed(texts(before), issued) =~= placed(texts(before), issued) + texts(before).skip(
            before.len() as int,
        ));
    }
    while index > 0 && byte_len(tokens[index - 1].as_str()) < length
        invariant
            index <= tokens.len(),
            tokens@ == before,
            length == byte_count(issued),
            placed(texts(before), issued) == placed(texts(before).take(index as int), issued) + texts(before).skip(
                index as int,
            ),
        decreases index,
    {
        proof {
            let shorter = texts(before).take(index as int);
            assert(shorter.drop_last() =~= texts(before).take(index - 1));
            assert(texts(before).skip(index - 1) =~= seq![shorter.last()] + texts(before).skip(index as int));
            assert(placed(shorter, issued) =~= placed(shorter.drop_last(), issued).push(shorter.last()));
            assert(placed(shorter.drop_last(), issued).push(shorter.last()) + texts(before).skip(index as int)
                =~= placed(shorter.drop_last(), issued) + texts(before).skip(index - 1));
        }
        index -= 1;
    }
    proof {
        let shorter = texts(before).take(index as int);
        if index > 0 {
            assert(shorter.last() == before[index - 1]@);
        }
        assert(placed(shorter, issued) =~= shorter.push(issued));
    }
    tokens.insert(index, token);
    assert(texts(tokens@) =~= texts(before).take(index as int).push(issued) + texts(before).skip(index as int));
}

/// Returns the tokens with the longest first.
pub fn order_tokens(tokens: &Vec<String>) -> (ordered: Vec<String>)
    ensures
        texts(ordered@) == longest_first(texts(tokens@)),
{
    let mut ordered: Vec<String> = Vec::new();
    let mut index: usize = 0;
    assert(texts(ordered@) =~= Seq::empty());
    assert(texts(tokens@).take(0) =~= Seq::empty());
    while index < tokens.len()
        invariant
            index <= tokens.len(),
            texts(ordered@) == longest_first(texts(tokens@).take(index as int)),
        decreases tokens.len() - index,
    {
        place_token(&mut ordered, tokens[index].clone());
        proof {
            let next = texts(tokens@).take(index + 1);
            assert(next.drop_last() =~= texts(tokens@).take(index as int));
            assert(next.last() == tokens@[index as int]@);
        }
        index += 1;
    }
    assert(texts(tokens@).take(tokens@.len() as int) =~= texts(tokens@));
    ordered
}

/// Replaces the tokens in `text`, the longest first, so that the longer of two
/// overlapping tokens wins.
pub fn redact(text: &str, tokens: &Vec<String>) -> (output: String)
    ensures
        output@ == redacted(text@, longest_first(texts(tokens@))),
{
    redact_in_order(text, &order_tokens(tokens))
}

/// Ordering the tokens neither adds nor drops one.
pub proof fn lemma_longest_first_keeps(tokens: Seq<Seq<char>>)
    ensures
        longest_first(tokens).len() == tokens.len(),
        forall|token: Seq<char>| #[trigger] longest_first(tokens).contains(token) <==> tokens.contains(token),
    decreases tokens.len(),
{
    if tokens.len() > 0 {
        let before = tokens.drop_last();
        lemma_longest_first_keeps(before);
        lemma_placed_keeps(longest_first(before), tokens.last());
        assert(tokens =~= before.push(tokens.last()));
        assert forall|token: Seq<char>| #[trigger] longest_first(tokens).contains(token) <==> tokens.contains(token) by {
            lemma_push_contains(before, tokens.last(), token);
            assert(longest_first(before).contains(token) <==> before.contains(token));
        }
    }
}

proof fn lemma_push_contains(tokens: Seq<Seq<char>>, added: Seq<char>, token: Seq<char>)
    ensures
        tokens.push(added).contains(token) <==> tokens.contains(token) || token == added,
{
    if tokens.contains(token) {
        let i = choose|i: int| 0 <= i < tokens.len() && tokens[i] == token;
        assert(tokens.push(added)[i] == token);
    }
    if token == added {
        assert(tokens.push(added)[tokens.len() as int] == token);
    }
}

proof fn lemma_placed_keeps(tokens: Seq<Seq<char>>, added: Seq<char>)
    ensures
        placed(tokens, added).len() == tokens.len() + 1,
        forall|token: Seq<char>| #[trigger]
            placed(tokens, added).contains(token) <==> tokens.contains(token) || token == added,
    decreases tokens.len(),
{
    if tokens.len() == 0 {
        assert(placed(tokens, added) =~= tokens.push(added));
    } else if byte_count(tokens.last()) < byte_count(added) {
        lemma_placed_keeps(tokens.drop_last(), added);
        assert(tokens =~= tokens.drop_last().push(tokens.last()));
    }
    assert forall|token: Seq<char>| #[trigger] placed(tokens, added).contains(token) <==> tokens.contains(token)
        || token == added by {
        if tokens.len() == 0 || byte_count(tokens.last()) >= byte_count(added) {
            lemma_push_contains(tokens, added, token);
        } else {
            lemma_push_contains(placed(tokens.drop_last(), added), tokens.last(), token);
            lemma_push_contains(tokens.drop_last(), tokens.last(), token);
        }
    }
}

/// Whatever the order in which tokens were issued, nothing that is kept holds
/// one of them.
pub proof fn law_redaction_removes_issued_tokens(text: Seq<char>, tokens: Seq<Seq<char>>, token: Seq<char>)
    requires
        tokens.contains(token),
        token.len() > 0,
    ensures
        !occurs(redacted(text, longest_first(tokens)), token),
{
    lemma_longest_first_keeps(tokens);
    let ordered = longest_first(tokens);
    assert(ordered.contains(token));
    let index = choose|i: int| 0 <= i < ordered.len() && ordered[i] == token;
    law_redacted_holds_no_token(text, ordered, index);
}

/// Nothing that is kept holds a token.
pub proof fn law_redacted_holds_no_token(text: Seq<char>, tokens: Seq<Seq<char>>, index: int)
    requires
        0 <= index < tokens.len(),
        tokens[index].len() > 0,
    ensures
        !occurs(redacted(text, tokens), tokens[index]),
{
    if redacted(text, tokens).len() == 0 {
        assert forall|position: int| !occurs_at(redacted(text, tokens), tokens[index], position) by {}
    }
}

/// A text that holds no token is kept as it is.
pub proof fn law_text_without_tokens_is_kept(text: Seq<char>, tokens: Seq<Seq<char>>)
    requires
        !any_occurs(tokens, text),
    ensures
        redacted(text, tokens) == text,
{
    lemma_marked_same(text, tokens);
}

/// What was redacted once stays as it is when it is redacted again.
pub proof fn law_redaction_is_done_once(text: Seq<char>, tokens: Seq<Seq<char>>)
    requires
        forall|index: int| 0 <= index < tokens.len() ==> (#[trigger] tokens[index]).len() > 0,
    ensures
        redacted(redacted(text, tokens), tokens) == redacted(text, tokens),
{
    assert forall|index: int| 0 <= index < tokens.len() implies !occurs(redacted(text, tokens), #[trigger] tokens[index]) by {
        law_redacted_holds_no_token(text, tokens, index);
    }
    law_text_without_tokens_is_kept(redacted(text, tokens), tokens);
}

proof fn lemma_marked_same(text: Seq<char>, tokens: Seq<Seq<char>>)
    requires
        !any_occurs(tokens, text),
    ensures
        marked(text, tokens) == text,
    decreases tokens.len(),
{
    if tokens.len() > 0 {
        let others = tokens.drop_last();
        assert(!any_occurs(others, text)) by {
            assert forall|i: int| 0 <= i < others.len() implies !occurs(text, #[trigger] others[i]) by {
                assert(others[i] == tokens[i]);
            }
        }
        lemma_marked_same(text, others);
        assert(!occurs(text, tokens[tokens.len() - 1]));
        lemma_replaced_same(text, tokens.last(), MARKER@);
    }
}

proof fn lemma_replaced_same(text: Seq<char>, part: Seq<char>, with: Seq<char>)
    requires
        !occurs(text, part),
    ensures
        replaced(text, part, with) == text,
    decreases text.len(),
{
    if part.len() > 0 && text.len() > 0 {
        assert(!occurs_at(text, part, 0));
        let rest = text.skip(1);
        assert forall|position: int| !occurs_at(rest, part, position) by {
            if occurs_at(rest, part, position) {
                assert(text.subrange(position + 1, position + 1 + part.len()) =~= rest.subrange(
                    position,
                    position + part.len(),
                ));
                assert(occurs_at(text, part, position + 1));
            }
        }
        lemma_replaced_same(rest, part, with);
        assert(seq![text[0]] + rest =~= text);
    }
}

/// A JSON value without the tokens in its texts and property names. There is
/// none where two properties of an object would get the same name.
pub open spec fn redacted_value(value: JsonValue, tokens: Seq<Seq<char>>) -> Option<JsonValue>
    decreases value,
{
    match value {
        JsonValue::Text(text) => Some(JsonValue::Text(redacted(text, tokens))),
        JsonValue::Array(items) => match redacted_items(items, tokens) {
            Some(items) => Some(JsonValue::Array(items)),
            None => None,
        },
        JsonValue::Object(members) => match redacted_members(members, tokens) {
            Some(members) => Some(JsonValue::Object(members)),
            None => None,
        },
        other => Some(other),
    }
}

/// Several JSON values without the tokens.
pub open spec fn redacted_items(items: Seq<JsonValue>, tokens: Seq<Seq<char>>) -> Option<Seq<JsonValue>>
    decreases items,
{
    if items.len() == 0 {
        Some(Seq::empty())
    } else {
        match (redacted_items(items.drop_last(), tokens), redacted_value(items.last(), tokens)) {
            (Some(before), Some(last)) => Some(before.push(last)),
            _ => None,
        }
    }
}

/// The members of an object without the tokens.
pub open spec fn redacted_members(members: Seq<(Seq<char>, JsonValue)>, tokens: Seq<Seq<char>>) -> Option<
    Seq<(Seq<char>, JsonValue)>,
>
    decreases members,
{
    if members.len() == 0 {
        Some(Seq::empty())
    } else {
        match (redacted_members(members.drop_last(), tokens), redacted_value(members.last().1, tokens)) {
            (Some(before), Some(last)) => {
                let name = redacted(members.last().0, tokens);
                if names_member(before, name) {
                    None
                } else {
                    Some(before.push((name, last)))
                }
            },
            _ => None,
        }
    }
}

/// Some member has this name.
pub open spec fn names_member(members: Seq<(Seq<char>, JsonValue)>, name: Seq<char>) -> bool {
    exists|index: int| 0 <= index < members.len() && (#[trigger] members[index]).0 == name
}

proof fn lemma_items_prefix(items: Seq<JsonValue>, tokens: Seq<Seq<char>>, count: int)
    requires
        0 <= count <= items.len(),
        redacted_items(items.take(count), tokens) is None,
    ensures
        redacted_items(items, tokens) is None,
    decreases items.len() - count,
{
    if count == items.len() {
        assert(items.take(count) =~= items);
    } else {
        assert(items.take(count + 1).drop_last() =~= items.take(count));
        lemma_items_prefix(items, tokens, count + 1);
    }
}

proof fn lemma_members_prefix(members: Seq<(Seq<char>, JsonValue)>, tokens: Seq<Seq<char>>, count: int)
    requires
        0 <= count <= members.len(),
        redacted_members(members.take(count), tokens) is None,
    ensures
        redacted_members(members, tokens) is None,
    decreases members.len() - count,
{
    if count == members.len() {
        assert(members.take(count) =~= members);
    } else {
        assert(members.take(count + 1).drop_last() =~= members.take(count));
        lemma_members_prefix(members, tokens, count + 1);
    }
}

fn name_taken(members: &Vec<(String, Json)>, name: &str) -> (taken: bool)
    ensures
        taken == names_member(members_of(members@), name@),
{
    let mut index: usize = 0;
    while index < members.len()
        invariant
            index <= members.len(),
            forall|i: int| 0 <= i < index ==> (#[trigger] members_of(members@)[i]).0 != name@,
        decreases members.len() - index,
    {
        assert(members_of(members@)[index as int].0 == members@[index as int].0@);
        if same_text(members[index].0.as_str(), name) {
            return true;
        }
        index += 1;
    }
    false
}

/// Replaces the tokens in every text and property name of a JSON value. Fails
/// where two properties of an object would get the same name.
pub fn redact_value(value: &Json, tokens: &Vec<String>) -> (output: Option<Json>)
    ensures
        match output {
            Some(output) => redacted_value(value@, texts(tokens@)) == Some(output@),
            None => redacted_value(value@, texts(tokens@)) is None,
        },
    decreases value,
{
    let ghost secret = texts(tokens@);
    match value {
        Json::Text(text) => Some(Json::Text(redact_in_order(text.as_str(), tokens))),
        Json::Array(items) => {
            let mut output: Vec<Json> = Vec::new();
            let ghost all = values_of(items@);
            proof {
                lemma_array(*items);
                assert(all.take(0) =~= Seq::empty());
                assert(values_of(output@) =~= Seq::empty());
            }
            let mut index: usize = 0;
            while index < items.len()
                invariant
                    index <= items.len(),
                    *value == Json::Array(*items),
                    value@ == JsonValue::Array(all),
                    all == values_of(items@),
                    secret == texts(tokens@),
                    redacted_items(all.take(index as int), secret) == Some(values_of(output@)),
                decreases items.len() - index,
            {
                assert(decreases_to!(*value => value->Array_0));
                assert(decreases_to!(*items => items@));
                assert(decreases_to!(items@ => items@[index as int]));
                proof {
                    assert(all.take(index + 1).drop_last() =~= all.take(index as int));
                    assert(all.take(index + 1).last() == items@[index as int]@);
                }
                match redact_value(&items[index], tokens) {
                    Some(item) => {
                        let ghost before = output@;
                        output.push(item);
                        assert(values_of(output@) =~= values_of(before).push(item@));
                    },
                    None => {
                        proof {
                            lemma_items_prefix(all, secret, index + 1);
                        }
                        return None;
                    },
                }
                index += 1;
            }
            proof {
                lemma_array(output);
                assert(all.take(all.len() as int) =~= all);
            }
            Some(Json::Array(output))
        },
        Json::Object(members) => {
            let mut output: Vec<(String, Json)> = Vec::new();
            let ghost all = members_of(members@);
            proof {
                lemma_object(*members);
                assert(all.take(0) =~= Seq::empty());
                assert(members_of(output@) =~= Seq::empty());
            }
            let mut index: usize = 0;
            while index < members.len()
                invariant
                    index <= members.len(),
                    *value == Json::Object(*members),
                    value@ == JsonValue::Object(all),
                    all == members_of(members@),
                    secret == texts(tokens@),
                    redacted_members(all.take(index as int), secret) == Some(members_of(output@)),
                decreases members.len() - index,
            {
                assert(decreases_to!(*value => value->Object_0));
                assert(decreases_to!(*members => members@));
                assert(decreases_to!(members@ => members@[index as int]));
                assert(decreases_to!(members@[index as int] => members@[index as int].1));
                proof {
                    assert(all.take(index + 1).drop_last() =~= all.take(index as int));
                    assert(all.take(index + 1).last() == (members@[index as int].0@, members@[index as int].1@));
                }
                let item = match redact_value(&members[index].1, tokens) {
                    Some(item) => item,
                    None => {
                        proof {
                            lemma_members_prefix(all, secret, index + 1);
                        }
                        return None;
                    },
                };
                let name = redact_in_order(members[index].0.as_str(), tokens);
                if name_taken(&output, name.as_str()) {
                    proof {
                        lemma_members_prefix(all, secret, index + 1);
                    }
                    return None;
                }
                let ghost before = output@;
                let ghost entry = (name@, item@);
                output.push((name, item));
                assert(members_of(output@) =~= members_of(before).push(entry));
                index += 1;
            }
            proof {
                lemma_object(output);
                assert(all.take(all.len() as int) =~= all);
            }
            Some(Json::Object(output))
        },
        _ => Some(value.copy()),
    }
}

/// Some text or property name in `value` holds `token`.
pub open spec fn value_holds(value: JsonValue, token: Seq<char>) -> bool
    decreases value,
{
    match value {
        JsonValue::Text(text) => occurs(text, token),
        JsonValue::Array(items) => exists|index: int|
            0 <= index < items.len() && value_holds(#[trigger] items[index], token),
        JsonValue::Object(members) => exists|index: int|
            0 <= index < members.len() && (occurs((#[trigger] members[index]).0, token) || value_holds(
                members[index].1,
                token,
            )),
        _ => false,
    }
}

/// No text and no property name of a redacted value holds a token.
pub proof fn law_redacted_value_holds_no_token(value: JsonValue, tokens: Seq<Seq<char>>, index: int)
    requires
        0 <= index < tokens.len(),
        tokens[index].len() > 0,
        redacted_value(value, tokens) is Some,
    ensures
        !value_holds(redacted_value(value, tokens)->0, tokens[index]),
    decreases value,
{
    match value {
        JsonValue::Text(text) => {
            law_redacted_holds_no_token(text, tokens, index);
        },
        JsonValue::Array(items) => {
            lemma_items_hold_none(items, tokens, index);
        },
        JsonValue::Object(members) => {
            lemma_members_hold_none(members, tokens, index);
        },
        _ => {},
    }
}

proof fn lemma_items_hold_none(items: Seq<JsonValue>, tokens: Seq<Seq<char>>, index: int)
    requires
        0 <= index < tokens.len(),
        tokens[index].len() > 0,
        redacted_items(items, tokens) is Some,
    ensures
        forall|i: int|
            0 <= i < redacted_items(items, tokens)->0.len() ==> !value_holds(
                #[trigger] redacted_items(items, tokens)->0[i],
                tokens[index],
            ),
    decreases items,
{
    if items.len() > 0 {
        lemma_items_hold_none(items.drop_last(), tokens, index);
        law_redacted_value_holds_no_token(items.last(), tokens, index);
    }
}

proof fn lemma_members_hold_none(members: Seq<(Seq<char>, JsonValue)>, tokens: Seq<Seq<char>>, index: int)
    requires
        0 <= index < tokens.len(),
        tokens[index].len() > 0,
        redacted_members(members, tokens) is Some,
    ensures
        forall|i: int|
            0 <= i < redacted_members(members, tokens)->0.len() ==> !occurs(
                (#[trigger] redacted_members(members, tokens)->0[i]).0,
                tokens[index],
            ) && !value_holds(redacted_members(members, tokens)->0[i].1, tokens[index]),
    decreases members,
{
    if members.len() > 0 {
        lemma_members_hold_none(members.drop_last(), tokens, index);
        law_redacted_value_holds_no_token(members.last().1, tokens, index);
        law_redacted_holds_no_token(members.last().0, tokens, index);
    }
}

/// The tokens are put in order, the longest first; none is lost and none is added.
pub proof fn law_tokens_are_ordered(tokens: Seq<Seq<char>>)
    ensures
        longest_first(tokens).len() == tokens.len(),
        longest_first(tokens).to_multiset() =~= tokens.to_multiset(),
        forall|token: Seq<char>| #[trigger] longest_first(tokens).contains(token) <==> tokens.contains(token),
        forall|i: int, j: int|
            0 <= i < j < longest_first(tokens).len() ==> byte_count(#[trigger] longest_first(tokens)[i]) >= byte_count(
                #[trigger] longest_first(tokens)[j],
            ),
    decreases tokens.len(),
{
    broadcast use vstd::seq_lib::group_to_multiset_ensures;

    if tokens.len() > 0 {
        let earlier = tokens.drop_last();
        law_tokens_are_ordered(earlier);
        lemma_placed(longest_first(earlier), tokens.last());
        assert(tokens =~= earlier.push(tokens.last()));
        assert(tokens.to_multiset() =~= earlier.to_multiset().insert(tokens.last())) by {
            earlier.to_multiset_ensures();
        }
    }
    let ordered = longest_first(tokens);
    assert forall|token: Seq<char>| #[trigger] ordered.contains(token) <==> tokens.contains(token) by {
        ordered.to_multiset_ensures();
        tokens.to_multiset_ensures();
        assert(ordered.contains(token) <==> ordered.to_multiset().count(token) > 0);
        assert(tokens.contains(token) <==> tokens.to_multiset().count(token) > 0);
    }
}

proof fn lemma_placed(tokens: Seq<Seq<char>>, token: Seq<char>)
    requires
        forall|i: int, j: int|
            0 <= i < j < tokens.len() ==> byte_count(#[trigger] tokens[i]) >= byte_count(#[trigger] tokens[j]),
    ensures
        placed(tokens, token).len() == tokens.len() + 1,
        placed(tokens, token).to_multiset() =~= tokens.to_multiset().insert(token),
        forall|i: int, j: int|
            0 <= i < j < placed(tokens, token).len() ==> byte_count(#[trigger] placed(tokens, token)[i]) >= byte_count(
                #[trigger] placed(tokens, token)[j],
            ),
        forall|i: int|
            0 <= i < placed(tokens, token).len() ==> tokens.contains(#[trigger] placed(tokens, token)[i]) || placed(
                tokens,
                token,
            )[i] == token,
    decreases tokens.len(),
{
    broadcast use vstd::seq_lib::group_to_multiset_ensures;

    let all = placed(tokens, token);
    if tokens.len() == 0 {
        assert(all =~= Seq::<Seq<char>>::empty().push(token));
        assert(tokens =~= Seq::<Seq<char>>::empty());
        Seq::<Seq<char>>::empty().to_multiset_ensures();
    } else if byte_count(tokens.last()) >= byte_count(token) {
        tokens.to_multiset_ensures();
        assert forall|i: int| 0 <= i < all.len() implies tokens.contains(#[trigger] all[i]) || all[i] == token by {
            if i < tokens.len() {
                assert(all[i] == tokens[i]);
            }
        }
        assert forall|i: int, j: int| 0 <= i < j < all.len() implies byte_count(#[trigger] all[i]) >= byte_count(
            #[trigger] all[j],
        ) by {
            assert(all[i] == tokens[i]);
            if j == tokens.len() {
                assert(byte_count(tokens[i]) >= byte_count(tokens[tokens.len() - 1]));
            }
        }
    } else {
        let earlier = tokens.drop_last();
        let last = tokens.last();
        lemma_placed(earlier, token);
        let before = placed(earlier, token);
        assert(tokens =~= earlier.push(last));
        earlier.to_multiset_ensures();
        before.to_multiset_ensures();
        assert(all == before.push(last));
        assert(all.to_multiset() =~= before.to_multiset().insert(last));
        assert(tokens.to_multiset() =~= earlier.to_multiset().insert(last));
        assert forall|i: int| 0 <= i < all.len() implies tokens.contains(#[trigger] all[i]) || all[i] == token by {
            if i < before.len() {
                assert(all[i] == before[i]);
                if earlier.contains(before[i]) {
                    let at = choose|at: int| 0 <= at < earlier.len() && earlier[at] == before[i];
                    assert(tokens[at] == before[i]);
                }
            } else {
                assert(all[i] == tokens[tokens.len() - 1]);
            }
        }
        assert forall|i: int, j: int| 0 <= i < j < all.len() implies byte_count(#[trigger] all[i]) >= byte_count(
            #[trigger] all[j],
        ) by {
            if j < before.len() {
                assert(all[i] == before[i] && all[j] == before[j]);
            } else {
                assert(all[i] == before[i] && all[j] == last);
                if earlier.contains(before[i]) {
                    let at = choose|at: int| 0 <= at < earlier.len() && earlier[at] == before[i];
                    assert(tokens[at] == before[i]);
                    assert(byte_count(tokens[at]) >= byte_count(tokens[tokens.len() - 1]));
                }
            }
        }
    }
}

/// A token is replaced by the marker in its place, and what stands around it stays.
pub proof fn law_redaction_keeps_what_is_around_a_token(before: Seq<char>, token: Seq<char>, behind: Seq<char>)
    requires
        token.len() > 0,
        !occurs(MARKER@, token),
        forall|position: int|
            position != before.len() ==> !#[trigger] occurs_at(before + token + behind, token, position),
        !occurs(before + MARKER@ + behind, token),
    ensures
        redacted(before + token + behind, seq![token]) == before + MARKER@ + behind,
{
    let text = before + token + behind;
    let tokens = seq![token];
    lemma_replaced_once(before, token, behind);
    assert(tokens.drop_last() =~= Seq::<Seq<char>>::empty());
    reveal_with_fuel(marked, 2);
    assert(marked(text, tokens) == replaced(text, token, MARKER@));
    assert(!any_occurs(tokens, MARKER@));
    assert(!leaks(tokens, before + MARKER@ + behind));
}

proof fn lemma_replaced_once(before: Seq<char>, token: Seq<char>, behind: Seq<char>)
    requires
        token.len() > 0,
        forall|position: int|
            position != before.len() ==> !#[trigger] occurs_at(before + token + behind, token, position),
    ensures
        replaced(before + token + behind, token, MARKER@) == before + MARKER@ + behind,
    decreases before.len(),
{
    let text = before + token + behind;
    if before.len() == 0 {
        assert(text.subrange(0, token.len() as int) =~= token);
        assert(occurs_at(text, token, 0));
        assert(text.skip(token.len() as int) =~= behind);
        assert forall|position: int| !#[trigger] occurs_at(behind, token, position) by {
            if occurs_at(behind, token, position) {
                assert(text.subrange(position + token.len(), position + token.len() + token.len()) =~= behind.subrange(
                    position,
                    position + token.len(),
                ));
                assert(occurs_at(text, token, position + token.len()));
            }
        }
        lemma_replaced_never(behind, token);
        assert(MARKER@ + behind =~= before + MARKER@ + behind);
    } else {
        let rest = before.skip(1);
        let tail = rest + token + behind;
        assert(!occurs_at(text, token, 0));
        assert(text.skip(1) =~= tail);
        assert forall|position: int| position != rest.len() implies !#[trigger] occurs_at(tail, token, position) by {
            if occurs_at(tail, token, position) {
                assert(text.subrange(position + 1, position + 1 + token.len()) =~= tail.subrange(
                    position,
                    position + token.len(),
                ));
                assert(occurs_at(text, token, position + 1));
            }
        }
        lemma_replaced_once(rest, token, behind);
        assert(seq![text[0]] + (rest + MARKER@ + behind) =~= before + MARKER@ + behind);
    }
}

proof fn lemma_replaced_never(text: Seq<char>, token: Seq<char>)
    requires
        token.len() > 0,
        forall|position: int| !#[trigger] occurs_at(text, token, position),
    ensures
        replaced(text, token, MARKER@) == text,
    decreases text.len(),
{
    if text.len() > 0 {
        let rest = text.skip(1);
        assert(!occurs_at(text, token, 0));
        assert forall|position: int| !#[trigger] occurs_at(rest, token, position) by {
            if occurs_at(rest, token, position) {
                assert(text.subrange(position + 1, position + 1 + token.len()) =~= rest.subrange(
                    position,
                    position + token.len(),
                ));
                assert(occurs_at(text, token, position + 1));
            }
        }
        lemma_replaced_never(rest, token);
        assert(seq![text[0]] + rest =~= text);
    }
}

/// Values are redacted text by text: numbers, flags and the shape of a value stay.
pub proof fn law_values_are_redacted_text_by_text(value: JsonValue, tokens: Seq<Seq<char>>)
    ensures
        value matches JsonValue::Text(text) ==> redacted_value(value, tokens) == Some(
            JsonValue::Text(redacted(text, tokens)),
        ),
        value is Null || value is Bool || value is Number ==> redacted_value(value, tokens) == Some(value),
        value matches JsonValue::Array(items) ==> (redacted_value(value, tokens) matches Some(after) ==> (after matches JsonValue::Array(
            kept,
        ) && kept.len() == items.len() && forall|i: int|
            0 <= i < items.len() ==> redacted_value(#[trigger] items[i], tokens) == Some(kept[i]))),
        value matches JsonValue::Object(members) ==> (redacted_value(value, tokens) matches Some(after) ==> (after matches JsonValue::Object(
            kept,
        ) && kept.len() == members.len() && forall|i: int|
            0 <= i < members.len() ==> kept[i].0 == redacted((#[trigger] members[i]).0, tokens) && redacted_value(
                members[i].1,
                tokens,
            ) == Some(kept[i].1))),
{
    match value {
        JsonValue::Array(items) => {
            lemma_items_redacted(items, tokens);
        },
        JsonValue::Object(members) => {
            lemma_members_redacted(members, tokens);
        },
        _ => {},
    }
}

proof fn lemma_items_redacted(items: Seq<JsonValue>, tokens: Seq<Seq<char>>)
    ensures
        redacted_items(items, tokens) matches Some(kept) ==> kept.len() == items.len() && forall|i: int|
            0 <= i < items.len() ==> redacted_value(#[trigger] items[i], tokens) == Some(kept[i]),
    decreases items.len(),
{
    if items.len() > 0 {
        let earlier = items.drop_last();
        lemma_items_redacted(earlier, tokens);
        if let Some(kept) = redacted_items(items, tokens) {
            assert forall|i: int| 0 <= i < items.len() implies redacted_value(#[trigger] items[i], tokens) == Some(
                kept[i],
            ) by {
                if i < earlier.len() {
                    assert(earlier[i] == items[i]);
                }
            }
        }
    }
}

proof fn lemma_members_redacted(members: Seq<(Seq<char>, JsonValue)>, tokens: Seq<Seq<char>>)
    ensures
        redacted_members(members, tokens) matches Some(kept) ==> kept.len() == members.len() && forall|i: int|
            0 <= i < members.len() ==> kept[i].0 == redacted((#[trigger] members[i]).0, tokens) && redacted_value(
                members[i].1,
                tokens,
            ) == Some(kept[i].1),
    decreases members.len(),
{
    if members.len() > 0 {
        let earlier = members.drop_last();
        lemma_members_redacted(earlier, tokens);
        if let Some(kept) = redacted_members(members, tokens) {
            assert forall|i: int| 0 <= i < members.len() implies kept[i].0 == redacted((#[trigger] members[i]).0, tokens)
                && redacted_value(members[i].1, tokens) == Some(kept[i].1) by {
                if i < earlier.len() {
                    assert(earlier[i] == members[i]);
                }
            }
        }
    }
}

} // verus!
