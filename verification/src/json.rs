//! JSON documents, as far as the probe reads them: objects, arrays and texts.
use crate::text::{chars_of, string_of, trim};
#[allow(unused_imports)]
use crate::text::{
    is_blank, lemma_trimmed, str_texts, text_of, trimmed, trimming_is_idempotent,
};
use vstd::prelude::*;

verus! {

/// A JSON document as the contracts speak of it.
pub enum JsonTree {
    Object(Seq<(Seq<char>, JsonTree)>),
    Array(Seq<JsonTree>),
    Text(Seq<char>),
    Scalar,
}

/// A JSON document. An object holds its members in order; of numbers, booleans and `null` only
/// that they are there.
#[derive(Debug)]
pub enum Json {
    Object(Vec<(String, Json)>),
    Array(Vec<Json>),
    Text(String),
    Scalar,
}

impl Json {
    /// The document that a value stands for.
    pub open spec fn tree(self) -> JsonTree
        decreases self,
    {
        match self {
            Json::Object(members) => JsonTree::Object(
                Seq::new(
                    members@.len(),
                    |i: int|
                        if 0 <= i < members@.len() {
                            (members@[i].0@, members@[i].1.tree())
                        } else {
                            arbitrary()
                        },
                ),
            ),
            Json::Array(items) => JsonTree::Array(
                Seq::new(
                    items@.len(),
                    |i: int|
                        if 0 <= i < items@.len() {
                            items@[i].tree()
                        } else {
                            arbitrary()
                        },
                ),
            ),
            Json::Text(text) => JsonTree::Text(text@),
            Json::Scalar => JsonTree::Scalar,
        }
    }
}

/// Order of texts by their first differing character; a text follows its own prefixes.
pub open spec fn precedes(a: Seq<char>, b: Seq<char>) -> bool
    decreases a.len(),
{
    if b.len() == 0 {
        false
    } else if a.len() == 0 {
        true
    } else if a[0] != b[0] {
        a[0] < b[0]
    } else {
        precedes(a.drop_first(), b.drop_first())
    }
}

/// Members stand in ascending order of their names, so that no name occurs twice.
pub open spec fn names_ascend(members: Seq<(Seq<char>, JsonTree)>) -> bool {
    forall|i: int, j: int|
        0 <= i < j < members.len() ==> precedes((#[trigger] members[i]).0, (#[trigger] members[j]).0)
}

/// In every object of the document the members stand in ascending order of their names.
pub open spec fn is_ordered(tree: JsonTree) -> bool
    decreases tree,
{
    match tree {
        JsonTree::Object(members) => {
            &&& names_ascend(members)
            &&& forall|i: int| 0 <= i < members.len() ==> is_ordered((#[trigger] members[i]).1)
        },
        JsonTree::Array(items) => forall|i: int|
            0 <= i < items.len() ==> is_ordered(#[trigger] items[i]),
        JsonTree::Text(_) => true,
        JsonTree::Scalar => true,
    }
}

/// The member of the given name.
pub open spec fn member(members: Seq<(Seq<char>, JsonTree)>, name: Seq<char>) -> Option<JsonTree>
    decreases members.len(),
{
    if members.len() == 0 {
        None
    } else if members[0].0 == name {
        Some(members[0].1)
    } else {
        member(members.drop_first(), name)
    }
}

/// A text that is not blank, without the white space at its ends.
pub open spec fn text_in(tree: Option<JsonTree>) -> Option<Seq<char>> {
    match tree {
        Some(JsonTree::Text(text)) if trimmed(text).len() > 0 => Some(trimmed(text)),
        _ => None,
    }
}

/// The text of the first of the named members that holds one.
pub open spec fn own_text(
    members: Seq<(Seq<char>, JsonTree)>,
    names: Seq<Seq<char>>,
) -> Option<Seq<char>>
    decreases names.len(),
{
    if names.len() == 0 {
        None
    } else {
        match text_in(member(members, names[0])) {
            Some(text) => Some(text),
            None => own_text(members, names.drop_first()),
        }
    }
}

/// The first text under one of the names: in an object its own members come first, in the order
/// of `names`, then what its members hold, in the order of the members.
pub open spec fn found_text(tree: JsonTree, names: Seq<Seq<char>>) -> Option<Seq<char>>
    decreases tree,
{
    match tree {
        JsonTree::Object(members) => match own_text(members, names) {
            Some(text) => Some(text),
            None => found_in_members(members, names),
        },
        JsonTree::Array(items) => found_in_items(items, names),
        JsonTree::Text(_) => None,
        JsonTree::Scalar => None,
    }
}

/// The first text that is found in one of the members, in their order.
pub open spec fn found_in_members(
    members: Seq<(Seq<char>, JsonTree)>,
    names: Seq<Seq<char>>,
) -> Option<Seq<char>>
    decreases members,
{
    if members.len() == 0 {
        None
    } else {
        match found_text(members[0].1, names) {
            Some(text) => Some(text),
            None => found_in_members(members.drop_first(), names),
        }
    }
}

/// The first text that is found in one of the items, in their order.
pub open spec fn found_in_items(items: Seq<JsonTree>, names: Seq<Seq<char>>) -> Option<Seq<char>>
    decreases items,
{
    if items.len() == 0 {
        None
    } else {
        match found_text(items[0], names) {
            Some(text) => Some(text),
            None => found_in_items(items.drop_first(), names),
        }
    }
}

#[verifier::external_type_specification]
#[verifier::external_body]
pub struct ExValue(serde_json::Value);

#[verifier::external_type_specification]
#[verifier::external_body]
pub struct ExJsonError(serde_json::Error);

/// What a `serde_json::Value` holds.
pub uninterp spec fn value_tree(value: serde_json::Value) -> JsonTree;

/// The document that `serde_json::from_str` reads from a text; none where it refuses the text.
pub uninterp spec fn parsed_json(text: Seq<char>) -> Option<JsonTree>;

/// One level of a `serde_json::Value`.
pub(crate) enum ValueParts {
    Members(Vec<(String, serde_json::Value)>),
    Items(Vec<serde_json::Value>),
    Text(String),
    Scalar,
}

impl ValueParts {
    /// The document that a value with these parts holds.
    pub closed spec fn tree(self) -> JsonTree {
        match self {
            ValueParts::Members(members) => JsonTree::Object(
                Seq::new(members@.len(), |i: int| (members@[i].0@, value_tree(members@[i].1))),
            ),
            ValueParts::Items(items) => JsonTree::Array(
                Seq::new(items@.len(), |i: int| value_tree(items@[i])),
            ),
            ValueParts::Text(text) => JsonTree::Text(text@),
            ValueParts::Scalar => JsonTree::Scalar,
        }
    }
}

/// Opens one level of a `serde_json::Value`: its variants, and `Map::into_iter` for the members
/// of an object. The parts hold what the value held. A map keeps its entries sorted by key, so
/// the members come out in ascending order of their names.
#[verifier::external_body]
fn value_parts(value: serde_json::Value) -> (parts: ValueParts)
    ensures
        parts.tree() == value_tree(value),
        parts.tree() matches JsonTree::Object(members) ==> names_ascend(members),
{
    match value {
        serde_json::Value::Object(members) => ValueParts::Members(members.into_iter().collect()),
        serde_json::Value::Array(items) => ValueParts::Items(items),
        serde_json::Value::String(text) => ValueParts::Text(text),
        serde_json::Value::Number(_) => ValueParts::Scalar,
        serde_json::Value::Bool(_) => ValueParts::Scalar,
        serde_json::Value::Null => ValueParts::Scalar,
    }
}

/// `serde_json::from_str`: reads a text as one JSON document, or refuses it. What comes out
/// depends on the text alone; it goes by the name `parsed_json`.
#[verifier::external_body]
fn parse_value(text: &str) -> (value: Result<serde_json::Value, serde_json::Error>)
    ensures
        match value {
            Ok(value) => parsed_json(text@) == Some(value_tree(value)),
            Err(_) => parsed_json(text@) is None,
        },
{
    serde_json::from_str(text)
}

/// Takes a `serde_json::Value` apart into a document of this library.
fn json_of(value: serde_json::Value) -> (json: Json)
    ensures
        json.tree() == value_tree(value),
        is_ordered(json.tree()),
    decreases value_tree(value),
{
    let ghost whole = value_tree(value);
    match value_parts(value) {
        ValueParts::Members(members) => {
            let ghost all = members@;
            let mut done: Vec<(String, Json)> = Vec::new();
            for member in it: members
                invariant
                    it.seq() == all,
                    whole == ValueParts::Members(members).tree(),
                    all == members@,
                    whole == value_tree(value),
                    done@.len() == it.index(),
                    forall|j: int|
                        0 <= j < it.index() ==> (#[trigger] done@[j]).0@ == all[j].0@
                            && done@[j].1.tree() == value_tree(all[j].1) && is_ordered(
                            done@[j].1.tree(),
                        ),
            {
                let (name, inner) = member;
                proof {
                    let i = it.index() as int;
                    assert(whole->Object_0[i].1 == value_tree(inner));
                    assert(decreases_to!(whole => whole->Object_0));
                    assert(decreases_to!(whole->Object_0 => whole->Object_0[i]));
                    assert(decreases_to!(whole->Object_0[i] => whole->Object_0[i].1));
                }
                done.push((name, json_of(inner)));
            }
            let json = Json::Object(done);
            assert(json.tree()->Object_0 =~= whole->Object_0);
            json
        },
        ValueParts::Items(items) => {
            let ghost all = items@;
            let mut done: Vec<Json> = Vec::new();
            for item in it: items
                invariant
                    it.seq() == all,
                    whole == ValueParts::Items(items).tree(),
                    all == items@,
                    whole == value_tree(value),
                    done@.len() == it.index(),
                    forall|j: int|
                        0 <= j < it.index() ==> (#[trigger] done@[j]).tree() == value_tree(all[j])
                            && is_ordered(done@[j].tree()),
            {
                proof {
                    let i = it.index() as int;
                    assert(whole->Array_0[i] == value_tree(item));
                    assert(decreases_to!(whole => whole->Array_0));
                    assert(decreases_to!(whole->Array_0 => whole->Array_0[i]));
                }
                done.push(json_of(item));
            }
            let json = Json::Array(done);
            assert(json.tree()->Array_0 =~= whole->Array_0);
            json
        },
        ValueParts::Text(text) => Json::Text(text),
        ValueParts::Scalar => Json::Scalar,
    }
}

/// Reads a text as a JSON document.
pub fn parse_json(text: &str) -> (json: Option<Json>)
    ensures
        match json {
            Some(json) => parsed_json(text@) == Some(json.tree()) && is_ordered(json.tree()),
            None => parsed_json(text@) is None,
        },
{
    match parse_value(text) {
        Ok(value) => Some(json_of(value)),
        Err(_) => None,
    }
}

/// The document that a member stands for, with its name.
spec fn members_of(members: Seq<(String, Json)>) -> Seq<(Seq<char>, JsonTree)> {
    Seq::new(members.len(), |i: int| (members[i].0@, members[i].1.tree()))
}

/// The member of the given name.
fn lookup<'a>(members: &'a Vec<(String, Json)>, name: &str) -> (found: Option<&'a Json>)
    ensures
        match found {
            Some(json) => member(members_of(members@), name@) == Some(json.tree()),
            None => member(members_of(members@), name@) is None,
        },
{
    let wanted: String = name.to_owned();
    let ghost all = members_of(members@);
    let mut i: usize = 0;
    assert(all.skip(0) == all);
    while i < members.len()
        invariant
            i <= members.len(),
            all == members_of(members@),
            wanted@ == name@,
            member(all, name@) == member(all.skip(i as int), name@),
        decreases members.len() - i,
    {
        assert(all.skip(i as int)[0] == all[i as int]);
        if members[i].0 == wanted {
            return Some(&members[i].1);
        }
        assert(all.skip(i as int).drop_first() == all.skip(i + 1));
        i += 1;
    }
    None
}

/// The text of the first of the named members that holds one that is not blank.
fn own_string(members: &Vec<(String, Json)>, names: &[&str]) -> (found: Option<String>)
    ensures
        text_of(found) == own_text(members_of(members@), str_texts(names@)),
{
    let ghost all = members_of(members@);
    let ghost wanted = str_texts(names@);
    let mut i: usize = 0;
    assert(wanted.skip(0) == wanted);
    while i < names.len()
        invariant
            i <= names.len(),
            all == members_of(members@),
            wanted == str_texts(names@),
            own_text(all, wanted) == own_text(all, wanted.skip(i as int)),
        decreases names.len() - i,
    {
        assert(wanted.skip(i as int)[0] == names@[i as int]@);
        if let Some(Json::Text(text)) = lookup(members, names[i]) {
            let chars = chars_of(text.as_str());
            let inner = trim(chars.as_slice());
            if inner.len() > 0 {
                return Some(string_of(inner));
            }
        }
        assert(wanted.skip(i as int).drop_first() == wanted.skip(i + 1));
        i += 1;
    }
    None
}

/// Looks a text up by candidate names, at any depth: in an object its own members come first,
/// so that a field of a nested object does not hide one of the outer object.
#[allow(non_snake_case)]
pub fn findJsonString(value: &Json, keys: &[&str]) -> (found: Option<String>)
    ensures
        text_of(found) == found_text(value.tree(), str_texts(keys@)),
    decreases value.tree(),
{
    let ghost whole = value.tree();
    let ghost names = str_texts(keys@);
    match value {
        Json::Object(members) => {
            let ghost all = members_of(members@);
            assert(whole->Object_0 =~= all);
            if let Some(text) = own_string(members, keys) {
                return Some(text);
            }
            let mut i: usize = 0;
            assert(all.skip(0) == all);
            while i < members.len()
                invariant
                    i <= members.len(),
                    names == str_texts(keys@),
                    all == members_of(members@),
                    whole == value.tree(),
                    whole == JsonTree::Object(all),
                    own_text(all, names) is None,
                    found_in_members(all, names) == found_in_members(all.skip(i as int), names),
                decreases members.len() - i,
            {
                assert(all.skip(i as int)[0] == all[i as int]);
                proof {
                    assert(decreases_to!(whole => whole->Object_0));
                    assert(decreases_to!(whole->Object_0 => whole->Object_0[i as int]));
                    assert(decreases_to!(whole->Object_0[i as int] => whole->Object_0[i as int].1));
                }
                if let Some(text) = findJsonString(&members[i].1, keys) {
                    assert(found_in_members(all.skip(i as int), names) == Some(text@));
                    return Some(text);
                }
                assert(all.skip(i as int).drop_first() == all.skip(i + 1));
                i += 1;
            }
            None
        },
        Json::Array(items) => {
            let ghost all = whole->Array_0;
            let mut i: usize = 0;
            assert(all.skip(0) == all);
            while i < items.len()
                invariant
                    i <= items.len(),
                    names == str_texts(keys@),
                    whole == value.tree(),
                    whole == JsonTree::Array(all),
                    all.len() == items@.len(),
                    forall|j: int| 0 <= j < all.len() ==> all[j] == (#[trigger] items@[j]).tree(),
                    found_in_items(all, names) == found_in_items(all.skip(i as int), names),
                decreases items.len() - i,
            {
                assert(all.skip(i as int)[0] == all[i as int]);
                assert(all[i as int] == items@[i as int].tree());
                proof {
                    assert(decreases_to!(whole => whole->Array_0));
                    assert(decreases_to!(whole->Array_0 => whole->Array_0[i as int]));
                }
                if let Some(text) = findJsonString(&items[i], keys) {
                    assert(found_in_items(all.skip(i as int), names) == Some(text@));
                    return Some(text);
                }
                assert(all.skip(i as int).drop_first() == all.skip(i + 1));
                i += 1;
            }
            None
        },
        Json::Text(_) => None,
        Json::Scalar => None,
    }
}

/// A text among an object's own members hides every text that is nested deeper.
pub proof fn own_members_come_first(
    members: Seq<(Seq<char>, JsonTree)>,
    names: Seq<Seq<char>>,
)
    ensures
        own_text(members, names) is Some ==> found_text(JsonTree::Object(members), names)
            == own_text(members, names),
{
}

/// A text that is found is not empty and has no white space at its ends.
pub proof fn found_text_is_trimmed(tree: JsonTree, names: Seq<Seq<char>>)
    ensures
        found_text(tree, names) matches Some(text) ==> text.len() > 0 && trimmed(text) == text,
    decreases tree,
{
    match tree {
        JsonTree::Object(members) => {
            lemma_own_text_is_trimmed(members, names);
            lemma_found_in_members(members, names);
        },
        JsonTree::Array(items) => {
            lemma_found_in_items(items, names);
        },
        JsonTree::Text(_) => {},
        JsonTree::Scalar => {},
    }
}

proof fn lemma_own_text_is_trimmed(
    members: Seq<(Seq<char>, JsonTree)>,
    names: Seq<Seq<char>>,
)
    ensures
        own_text(members, names) matches Some(text) ==> text.len() > 0 && trimmed(text) == text,
    decreases names.len(),
{
    if names.len() > 0 {
        if let Some(JsonTree::Text(text)) = member(members, names[0]) {
            trimming_is_idempotent(text);
        }
        lemma_own_text_is_trimmed(members, names.drop_first());
    }
}

proof fn lemma_found_in_members(members: Seq<(Seq<char>, JsonTree)>, names: Seq<Seq<char>>)
    ensures
        found_in_members(members, names) matches Some(text) ==> text.len() > 0 && trimmed(text)
            == text,
    decreases members,
{
    if members.len() > 0 {
        assert(decreases_to!(members => members[0]));
        assert(decreases_to!(members[0] => members[0].1));
        found_text_is_trimmed(members[0].1, names);
        lemma_found_in_members(members.drop_first(), names);
    }
}

proof fn lemma_found_in_items(items: Seq<JsonTree>, names: Seq<Seq<char>>)
    ensures
        found_in_items(items, names) matches Some(text) ==> text.len() > 0 && trimmed(text) == text,
    decreases items,
{
    if items.len() > 0 {
        found_text_is_trimmed(items[0], names);
        lemma_found_in_items(items.drop_first(), names);
    }
}

/// In an ordered object every member is found by its name.
pub proof fn members_are_found_by_name(members: Seq<(Seq<char>, JsonTree)>, i: int)
    requires
        names_ascend(members),
        0 <= i < members.len(),
    ensures
        member(members, members[i].0) == Some(members[i].1),
    decreases members.len(),
{
    if i > 0 {
        assert(precedes(members[0].0, members[i].0));
        lemma_precedes_is_strict(members[0].0);
        let tail = members.drop_first();
        assert forall|j: int, k: int| 0 <= j < k < tail.len() implies precedes(
            (#[trigger] tail[j]).0,
            (#[trigger] tail[k]).0,
        ) by {
            assert(precedes(members[j + 1].0, members[k + 1].0));
        }
        members_are_found_by_name(tail, i - 1);
    }
}

proof fn lemma_precedes_is_strict(a: Seq<char>)
    ensures
        !precedes(a, a),
    decreases a.len(),
{
    if a.len() > 0 {
        lemma_precedes_is_strict(a.drop_first());
    }
}

/// The value that is reached from the top of a document by going down the given positions, among
/// members or items.
pub open spec fn at(tree: JsonTree, path: Seq<int>) -> Option<JsonTree>
    decreases path.len(),
{
    if path.len() == 0 {
        Some(tree)
    } else {
        match tree {
            JsonTree::Object(members) => if 0 <= path[0] < members.len() {
                at(members[path[0]].1, path.drop_first())
            } else {
                None
            },
            JsonTree::Array(items) => if 0 <= path[0] < items.len() {
                at(items[path[0]], path.drop_first())
            } else {
                None
            },
            _ => None,
        }
    }
}

/// The member of a name is the first that bears it; there is one just where a member bears it.
pub proof fn member_is_the_first_of_its_name(
    members: Seq<(Seq<char>, JsonTree)>,
    name: Seq<char>,
    i: int,
)
    requires
        0 <= i <= members.len(),
        forall|k: int| 0 <= k < i ==> (#[trigger] members[k]).0 != name,
    ensures
        i < members.len() && members[i].0 == name ==> member(members, name) == Some(members[i].1),
        i == members.len() ==> member(members, name) is None,
    decreases members.len(),
{
    if i > 0 {
        let tail = members.drop_first();
        assert(members[0].0 != name);
        assert forall|k: int| 0 <= k < i - 1 implies (#[trigger] tail[k]).0 != name by {
            assert(members[k + 1].0 != name);
        }
        member_is_the_first_of_its_name(tail, name, i - 1);
    }
}

/// A member counts where it is a text that is not blank, whatever the text is, and what counts is
/// the text without the white space at its ends; a member of any other sort does not count.
pub proof fn texts_count_unless_blank(text: Seq<char>, tree: JsonTree)
    ensures
        !is_blank(text) ==> text_in(Some(JsonTree::Text(text))) == Some(trimmed(text)),
        is_blank(text) ==> text_in(Some(JsonTree::Text(text))) is None,
        !(tree is Text) ==> text_in(Some(tree)) is None,
        text_in(None) is None,
{
    lemma_trimmed(text);
}

/// Of an object's own members, the one under the earliest of the names counts that holds a text;
/// where none of them does, there is no own text.
pub proof fn earliest_name_counts(
    members: Seq<(Seq<char>, JsonTree)>,
    names: Seq<Seq<char>>,
    k: int,
)
    requires
        0 <= k <= names.len(),
        forall|j: int| 0 <= j < k ==> text_in(member(members, #[trigger] names[j])) is None,
    ensures
        k < names.len() && text_in(member(members, names[k])) is Some ==> own_text(members, names)
            == text_in(member(members, names[k])) && found_text(JsonTree::Object(members), names)
            == text_in(member(members, names[k])),
        k == names.len() ==> own_text(members, names) is None,
    decreases names.len(),
{
    if k > 0 {
        let tail = names.drop_first();
        assert(text_in(member(members, names[0])) is None);
        assert forall|j: int| 0 <= j < k - 1 implies text_in(
            member(members, #[trigger] tail[j]),
        ) is None by {
            assert(tail[j] == names[j + 1]);
        }
        earliest_name_counts(members, tail, k - 1);
    }
}

/// Where an object has no own text, every one of its members is searched, whatever its siblings
/// hold: the first in which a text is found gives it, and none is found just where none gives one.
pub proof fn every_member_is_searched(
    members: Seq<(Seq<char>, JsonTree)>,
    names: Seq<Seq<char>>,
    i: int,
)
    requires
        own_text(members, names) is None,
        0 <= i <= members.len(),
        forall|k: int| 0 <= k < i ==> found_text((#[trigger] members[k]).1, names) is None,
    ensures
        i < members.len() && found_text(members[i].1, names) is Some ==> found_text(
            JsonTree::Object(members),
            names,
        ) == found_text(members[i].1, names),
        i == members.len() ==> found_text(JsonTree::Object(members), names) is None,
{
    lemma_member_search(members, names, i);
}

proof fn lemma_member_search(
    members: Seq<(Seq<char>, JsonTree)>,
    names: Seq<Seq<char>>,
    i: int,
)
    requires
        0 <= i <= members.len(),
        forall|k: int| 0 <= k < i ==> found_text((#[trigger] members[k]).1, names) is None,
    ensures
        i < members.len() && found_text(members[i].1, names) is Some ==> found_in_members(
            members,
            names,
        ) == found_text(members[i].1, names),
        i == members.len() ==> found_in_members(members, names) is None,
    decreases members.len(),
{
    if i > 0 {
        let tail = members.drop_first();
        assert(found_text(members[0].1, names) is None);
        assert forall|k: int| 0 <= k < i - 1 implies found_text(
            (#[trigger] tail[k]).1,
            names,
        ) is None by {
            assert(tail[k] == members[k + 1]);
        }
        lemma_member_search(tail, names, i - 1);
    }
}

/// Every item of an array is searched, whatever its neighbours hold: the first in which a text is
/// found gives it, and none is found just where none gives one.
pub proof fn every_item_is_searched(items: Seq<JsonTree>, names: Seq<Seq<char>>, i: int)
    requires
        0 <= i <= items.len(),
        forall|k: int| 0 <= k < i ==> found_text(#[trigger] items[k], names) is None,
    ensures
        i < items.len() && found_text(items[i], names) is Some ==> found_text(
            JsonTree::Array(items),
            names,
        ) == found_text(items[i], names),
        i == items.len() ==> found_text(JsonTree::Array(items), names) is None,
{
    lemma_item_search(items, names, i);
}

proof fn lemma_item_search(items: Seq<JsonTree>, names: Seq<Seq<char>>, i: int)
    requires
        0 <= i <= items.len(),
        forall|k: int| 0 <= k < i ==> found_text(#[trigger] items[k], names) is None,
    ensures
        i < items.len() && found_text(items[i], names) is Some ==> found_in_items(items, names)
            == found_text(items[i], names),
        i == items.len() ==> found_in_items(items, names) is None,
    decreases items.len(),
{
    if i > 0 {
        let tail = items.drop_first();
        assert(found_text(items[0], names) is None);
        assert forall|k: int| 0 <= k < i - 1 implies found_text(
            #[trigger] tail[k],
            names,
        ) is None by {
            assert(tail[k] == items[k + 1]);
        }
        lemma_item_search(tail, names, i - 1);
    }
}

/// A text or another scalar by itself holds nothing under a name.
pub proof fn scalars_hold_no_names(text: Seq<char>, names: Seq<Seq<char>>)
    ensures
        found_text(JsonTree::Text(text), names) is None,
        found_text(JsonTree::Scalar, names) is None,
{
}

proof fn lemma_some_member(members: Seq<(Seq<char>, JsonTree)>, names: Seq<Seq<char>>, i: int)
    requires
        0 <= i < members.len(),
        found_text(members[i].1, names) is Some,
    ensures
        found_in_members(members, names) is Some,
    decreases members.len(),
{
    if i > 0 {
        assert(members.drop_first()[i - 1] == members[i]);
        lemma_some_member(members.drop_first(), names, i - 1);
    }
}

proof fn lemma_some_item(items: Seq<JsonTree>, names: Seq<Seq<char>>, i: int)
    requires
        0 <= i < items.len(),
        found_text(items[i], names) is Some,
    ensures
        found_in_items(items, names) is Some,
    decreases items.len(),
{
    if i > 0 {
        assert(items.drop_first()[i - 1] == items[i]);
        lemma_some_item(items.drop_first(), names, i - 1);
    }
}

proof fn lemma_some_name(
    members: Seq<(Seq<char>, JsonTree)>,
    names: Seq<Seq<char>>,
    k: int,
)
    requires
        0 <= k < names.len(),
        text_in(member(members, names[k])) is Some,
    ensures
        own_text(members, names) is Some,
    decreases names.len(),
{
    if k > 0 {
        assert(names.drop_first()[k - 1] == names[k]);
        lemma_some_name(members, names.drop_first(), k - 1);
    }
}

/// The search is complete: where an object anywhere in the document, however deep and whatever
/// stands beside it, has a text that is not blank under one of the names, a text is found.
pub proof fn text_at_any_depth_is_found(
    tree: JsonTree,
    path: Seq<int>,
    members: Seq<(Seq<char>, JsonTree)>,
    i: int,
    text: Seq<char>,
    names: Seq<Seq<char>>,
)
    requires
        at(tree, path) == Some(JsonTree::Object(members)),
        0 <= i < members.len(),
        names.contains(members[i].0),
        forall|k: int| 0 <= k < i ==> (#[trigger] members[k]).0 != members[i].0,
        members[i].1 == JsonTree::Text(text),
        !is_blank(text),
    ensures
        found_text(tree, names) is Some,
    decreases path.len(),
{
    if path.len() == 0 {
        member_is_the_first_of_its_name(members, members[i].0, i);
        lemma_trimmed(text);
        let k = choose|k: int| 0 <= k < names.len() && names[k] == members[i].0;
        lemma_some_name(members, names, k);
    } else {
        let step = path[0];
        match tree {
            JsonTree::Object(outer) => {
                text_at_any_depth_is_found(
                    outer[step].1,
                    path.drop_first(),
                    members,
                    i,
                    text,
                    names,
                );
                lemma_some_member(outer, names, step);
            },
            JsonTree::Array(items) => {
                text_at_any_depth_is_found(
                    items[step],
                    path.drop_first(),
                    members,
                    i,
                    text,
                    names,
                );
                lemma_some_item(items, names, step);
            },
            _ => {},
        }
    }
}

/// The search invents nothing: a text that is found stands in the document, in an object, under
/// one of the names.
pub proof fn found_text_stands_in_the_document(tree: JsonTree, names: Seq<Seq<char>>) -> (place: (
    Seq<int>,
    Seq<(Seq<char>, JsonTree)>,
    int,
    Seq<char>,
))
    requires
        found_text(tree, names) is Some,
    ensures
        at(tree, place.0) == Some(JsonTree::Object(place.1)),
        0 <= place.2 < place.1.len(),
        names.contains(place.1[place.2].0),
        place.1[place.2].1 == JsonTree::Text(place.3),
        found_text(tree, names) == Some(trimmed(place.3)),
    decreases tree, 0int,
{
    match tree {
        JsonTree::Object(members) => {
            if own_text(members, names) is Some {
                let (i, text) = lemma_own_place(members, names);
                (Seq::empty(), members, i, text)
            } else {
                assert(decreases_to!(tree => members));
                let (step, inner) = lemma_member_place(members, names);
                let path = seq![step] + inner.0;
                assert(path.drop_first() =~= inner.0);
                (path, inner.1, inner.2, inner.3)
            }
        },
        JsonTree::Array(items) => {
            assert(decreases_to!(tree => items));
            let (step, inner) = lemma_item_place(items, names);
            let path = seq![step] + inner.0;
            assert(path.drop_first() =~= inner.0);
            (path, inner.1, inner.2, inner.3)
        },
        _ => (Seq::empty(), Seq::empty(), 0, Seq::empty()),
    }
}

proof fn lemma_own_place(members: Seq<(Seq<char>, JsonTree)>, names: Seq<Seq<char>>) -> (place: (
    int,
    Seq<char>,
))
    requires
        own_text(members, names) is Some,
    ensures
        0 <= place.0 < members.len(),
        names.contains(members[place.0].0),
        members[place.0].1 == JsonTree::Text(place.1),
        own_text(members, names) == Some(trimmed(place.1)),
    decreases names.len(),
{
    if text_in(member(members, names[0])) is Some {
        let i = lemma_member_index(members, names[0]);
        assert(names[0] == members[i].0);
        (i, members[i].1->Text_0)
    } else {
        let tail = names.drop_first();
        let (i, text) = lemma_own_place(members, tail);
        let k = choose|k: int| 0 <= k < tail.len() && tail[k] == members[i].0;
        assert(names[k + 1] == members[i].0);
        (i, text)
    }
}

proof fn lemma_member_index(members: Seq<(Seq<char>, JsonTree)>, name: Seq<char>) -> (i: int)
    requires
        member(members, name) is Some,
    ensures
        0 <= i < members.len(),
        members[i].0 == name,
        member(members, name) == Some(members[i].1),
    decreases members.len(),
{
    if members[0].0 == name {
        0
    } else {
        let i = lemma_member_index(members.drop_first(), name);
        assert(members.drop_first()[i] == members[i + 1]);
        i + 1
    }
}

proof fn lemma_member_place(
    members: Seq<(Seq<char>, JsonTree)>,
    names: Seq<Seq<char>>,
) -> (place: (int, (Seq<int>, Seq<(Seq<char>, JsonTree)>, int, Seq<char>)))
    requires
        found_in_members(members, names) is Some,
    ensures
        0 <= place.0 < members.len(),
        at(members[place.0].1, place.1.0) == Some(JsonTree::Object(place.1.1)),
        0 <= place.1.2 < place.1.1.len(),
        names.contains(place.1.1[place.1.2].0),
        place.1.1[place.1.2].1 == JsonTree::Text(place.1.3),
        found_in_members(members, names) == Some(trimmed(place.1.3)),
    decreases members, 1int,
{
    if found_text(members[0].1, names) is Some {
        assert(decreases_to!(members => members[0]));
        assert(decreases_to!(members[0] => members[0].1));
        (0, found_text_stands_in_the_document(members[0].1, names))
    } else {
        let (i, place) = lemma_member_place(members.drop_first(), names);
        assert(members.drop_first()[i] == members[i + 1]);
        (i + 1, place)
    }
}

proof fn lemma_item_place(items: Seq<JsonTree>, names: Seq<Seq<char>>) -> (place: (
    int,
    (Seq<int>, Seq<(Seq<char>, JsonTree)>, int, Seq<char>),
))
    requires
        found_in_items(items, names) is Some,
    ensures
        0 <= place.0 < items.len(),
        at(items[place.0], place.1.0) == Some(JsonTree::Object(place.1.1)),
        0 <= place.1.2 < place.1.1.len(),
        names.contains(place.1.1[place.1.2].0),
        place.1.1[place.1.2].1 == JsonTree::Text(place.1.3),
        found_in_items(items, names) == Some(trimmed(place.1.3)),
    decreases items, 1int,
{
    if found_text(items[0], names) is Some {
        (0, found_text_stands_in_the_document(items[0], names))
    } else {
        let (i, place) = lemma_item_place(items.drop_first(), names);
        assert(items.drop_first()[i] == items[i + 1]);
        (i + 1, place)
    }
}

/// A value stands for what it is built of: an object for its members, in order and under their
/// names, an array for its items, a text for itself.
pub proof fn values_stand_for_their_parts(
    members: Vec<(String, Json)>,
    items: Vec<Json>,
    text: String,
    i: int,
)
    ensures
        Json::Object(members).tree() matches JsonTree::Object(all) && all.len() == members@.len()
            && (0 <= i < members@.len() ==> all[i].0 == members@[i].0@ && all[i].1
            == members@[i].1.tree()),
        Json::Array(items).tree() matches JsonTree::Array(all) && all.len() == items@.len() && (0
            <= i < items@.len() ==> all[i] == items@[i].tree()),
        Json::Text(text).tree() == JsonTree::Text(text@),
        Json::Scalar.tree() == JsonTree::Scalar,
{
}

/// Names ascend by their first differing character, and a name comes after what it begins with;
/// of two names that differ one comes first, and never both.
pub proof fn names_are_in_dictionary_order(
    head: Seq<char>,
    a: char,
    b: char,
    left: Seq<char>,
    right: Seq<char>,
)
    ensures
        precedes(head, head + seq![a] + left),
        !precedes(head + seq![a] + left, head),
        a < b ==> precedes(head + seq![a] + left, head + seq![b] + right),
        a < b ==> !precedes(head + seq![b] + right, head + seq![a] + left),
    decreases head.len(),
{
    let x = head + seq![a] + left;
    let y = head + seq![b] + right;
    if head.len() > 0 {
        let less = head.drop_first();
        assert(x[0] == head[0] && y[0] == head[0]);
        assert(x.drop_first() =~= less + seq![a] + left);
        assert(y.drop_first() =~= less + seq![b] + right);
        names_are_in_dictionary_order(less, a, b, left, right);
    } else {
        assert(x[0] == a && y[0] == b);
    }
}

/// In an ordered document every object, however deep, has its members in ascending order of their
/// names, so that no name occurs twice in it.
pub proof fn ordered_documents_are_ordered_throughout(
    tree: JsonTree,
    path: Seq<int>,
    members: Seq<(Seq<char>, JsonTree)>,
    i: int,
    j: int,
)
    requires
        is_ordered(tree),
        at(tree, path) == Some(JsonTree::Object(members)),
        0 <= i < j < members.len(),
    ensures
        precedes(members[i].0, members[j].0),
        members[i].0 != members[j].0,
    decreases path.len(),
{
    if path.len() == 0 {
        lemma_precedes_is_strict(members[i].0);
    } else {
        match tree {
            JsonTree::Object(outer) => {
                ordered_documents_are_ordered_throughout(
                    outer[path[0]].1,
                    path.drop_first(),
                    members,
                    i,
                    j,
                );
            },
            JsonTree::Array(items) => {
                ordered_documents_are_ordered_throughout(
                    items[path[0]],
                    path.drop_first(),
                    members,
                    i,
                    j,
                );
            },
            _ => {},
        }
    }
}

} // verus!
