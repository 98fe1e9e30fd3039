//! JSON documents as trees of plain values.

use vstd::prelude::*;

use crate::text::same_text;

verus! {

/// A JSON value as a mathematical tree: the model of a [`JsonValue`].
pub enum JsonModel {
    Null,
    Bool(bool),
    Number(Option<u64>),
    String(Seq<char>),
    Array(Seq<JsonModel>),
    Object(Seq<(Seq<char>, JsonModel)>),
}

/// A JSON value.
#[derive(Debug)]
pub enum JsonValue {
    Null,
    Bool(bool),
    /// A number. It holds the number itself where that is a whole number from
    /// zero to `u64::MAX`, and nothing more of any other number.
    Number(Option<u64>),
    String(String),
    Array(Vec<JsonValue>),
    /// An object: its members in order, each a name and a value.
    Object(Vec<(String, JsonValue)>),
}

impl JsonValue {
    /// The tree that this value holds.
    pub open spec fn tree(&self) -> JsonModel
        decreases self,
    {
        match self {
            JsonValue::Null => JsonModel::Null,
            JsonValue::Bool(value) => JsonModel::Bool(*value),
            JsonValue::Number(value) => JsonModel::Number(*value),
            JsonValue::String(value) => JsonModel::String(value@),
            JsonValue::Array(items) => JsonModel::Array(
                Seq::new(
                    items@.len(),
                    |i: int|
                        if 0 <= i < items@.len() {
                            items@[i].tree()
                        } else {
                            JsonModel::Null
                        },
                ),
            ),
            JsonValue::Object(members) => JsonModel::Object(
                Seq::new(
                    members@.len(),
                    |i: int|
                        if 0 <= i < members@.len() {
                            (members@[i].0@, members@[i].1.tree())
                        } else {
                            (Seq::empty(), JsonModel::Null)
                        },
                ),
            ),
        }
    }
}

impl View for JsonValue {
    type V = JsonModel;

    open spec fn view(&self) -> JsonModel {
        self.tree()
    }
}

/// What a JSON parser makes of `text`: the document, or nothing where the
/// text is no single JSON value.
pub uninterp spec fn json_document(text: Seq<char>) -> Option<JsonModel>;

/// The tree that a parsed JSON value holds.
pub uninterp spec fn json_tree(value: serde_json::Value) -> JsonModel;

/// `serde_json::Value`, a parsed JSON value, taken as it is: nothing is said
/// of what is inside but through [`json_tree`].
#[verifier::external_type_specification]
#[verifier::external_body]
pub struct ExValue(serde_json::Value);

/// `serde_json::Error`, the reason why a text is no JSON value, taken as it
/// is.
#[verifier::external_type_specification]
#[verifier::external_body]
pub struct ExError(serde_json::Error);

/// `serde_json::Number`, a parsed JSON number, taken as it is: nothing is
/// said of it but through [`number_unsigned`].
#[verifier::external_type_specification]
#[verifier::external_body]
pub struct ExNumber(serde_json::Number);

/// `serde_json::Map`, the members of a parsed JSON object, taken as it is:
/// nothing is said of what is inside but through [`map_members`].
#[verifier::external_type_specification]
#[verifier::external_body]
#[verifier::reject_recursive_types(K)]
#[verifier::reject_recursive_types(V)]
pub struct ExMap<K, V>(serde_json::Map<K, V>);

/// The number that a parsed JSON number gives as an unsigned integer of 64
/// bits, if any.
pub uninterp spec fn number_unsigned(number: serde_json::Number) -> Option<u64>;

/// The names and trees of the members that a parsed JSON object holds, in
/// the order in which it yields them.
pub uninterp spec fn map_members(map: serde_json::Map<String, serde_json::Value>) -> Seq<
    (Seq<char>, JsonModel),
>;

/// The value of the first member named `key` among `members`.
pub open spec fn find_member(members: Seq<(Seq<char>, JsonModel)>, key: Seq<char>) -> Option<
    JsonModel,
>
    decreases members.len(),
{
    if members.len() == 0 {
        None
    } else if members[0].0 == key {
        Some(members[0].1)
    } else {
        find_member(members.drop_first(), key)
    }
}

impl JsonModel {
    /// The member named `key`, where this is an object that has one.
    pub open spec fn member(self, key: Seq<char>) -> Option<JsonModel> {
        match self {
            JsonModel::Object(members) => find_member(members, key),
            _ => None,
        }
    }

    /// The elements, where this is an array.
    pub open spec fn elements(self) -> Option<Seq<JsonModel>> {
        match self {
            JsonModel::Array(items) => Some(items),
            _ => None,
        }
    }

    /// The text, where this is a string.
    pub open spec fn text(self) -> Option<Seq<char>> {
        match self {
            JsonModel::String(text) => Some(text),
            _ => None,
        }
    }

    /// The number, where this is a whole number from zero to `u64::MAX`.
    pub open spec fn unsigned(self) -> Option<u64> {
        match self {
            JsonModel::Number(value) => value,
            _ => None,
        }
    }
}

/// The member named `key` of a value that may be absent.
pub open spec fn member_of(value: Option<JsonModel>, key: Seq<char>) -> Option<JsonModel> {
    match value {
        Some(inner) => inner.member(key),
        None => None,
    }
}

/// The text of a value that may be absent.
pub open spec fn text_of(value: Option<JsonModel>) -> Option<Seq<char>> {
    match value {
        Some(inner) => inner.text(),
        None => None,
    }
}

/// The whole number that a value holds, where the value is there.
pub open spec fn unsigned_of(value: Option<JsonModel>) -> Option<u64> {
    match value {
        Some(inner) => inner.unsigned(),
        None => None,
    }
}

/// The models of a list of values, in order.
pub open spec fn models(items: Seq<JsonValue>) -> Seq<JsonModel> {
    Seq::new(items.len(), |i: int| items[i]@)
}

impl JsonValue {
    /// Looks up the member named `key`, where this is an object that has one.
    /// Of several members with one name the first is found.
    pub fn member(&self, key: &str) -> (found: Option<&JsonValue>)
        ensures
            match found {
                Some(value) => self@.member(key@) == Some(value@),
                None => self@.member(key@) is None,
            },
    {
        match self {
            JsonValue::Object(members) => {
                let ghost all = self@->Object_0;
                let mut i: usize = 0;
                assert(all.skip(0) =~= all);
                while i < members.len()
                    invariant
                        i <= members@.len(),
                        self@ == JsonModel::Object(all),
                        all.len() == members@.len(),
                        forall|k: int|
                            0 <= k < members@.len() ==> #[trigger] all[k] == (
                                members@[k].0@,
                                members@[k].1@,
                            ),
                        find_member(all, key@) == find_member(all.skip(i as int), key@),
                    decreases members@.len() - i,
                {
                    let ghost rest = all.skip(i as int);
                    assert(rest[0] == all[i as int]);
                    assert(rest.drop_first() =~= all.skip(i + 1));
                    if same_text(members[i].0.as_str(), key) {
                        assert(rest[0].0 == key@);
                        assert(find_member(rest, key@) == Some(rest[0].1));
                        return Some(&members[i].1);
                    }
                    i += 1;
                }
                None
            },
            _ => None,
        }
    }

    /// The elements, where this is an array.
    pub fn elements(&self) -> (found: Option<&Vec<JsonValue>>)
        ensures
            match found {
                Some(items) => self@.elements() == Some(models(items@)),
                None => self@.elements() is None,
            },
    {
        match self {
            JsonValue::Array(items) => {
                assert(self@->Array_0 =~= models(items@));
                Some(items)
            },
            _ => None,
        }
    }

    /// The text, where this is a string.
    pub fn text(&self) -> (found: Option<&str>)
        ensures
            match found {
                Some(text) => self@.text() == Some(text@),
                None => self@.text() is None,
            },
    {
        match self {
            JsonValue::String(text) => Some(text.as_str()),
            _ => None,
        }
    }

    /// The number, where this is a whole number from zero to `u64::MAX`.
    pub fn unsigned(&self) -> (found: Option<u64>)
        ensures
            found == self@.unsigned(),
    {
        match self {
            JsonValue::Number(value) => *value,
            _ => None,
        }
    }
}

/// Parses a text as one JSON value with `serde_json::from_str`.
///
/// Trusted: whether the text is taken, and the tree of the value that comes
/// out of it, depend on the text alone.
#[verifier::external_body]
pub(crate) fn parse_value(text: &str) -> (parsed: Result<serde_json::Value, serde_json::Error>)
    ensures
        match parsed {
            Ok(value) => json_document(text@) == Some(json_tree(value)),
            Err(_) => json_document(text@) is None,
        },
{
    serde_json::from_str::<serde_json::Value>(text)
}

/// The trees that a list of parsed values holds, in order.
pub open spec fn trees(items: Seq<serde_json::Value>) -> Seq<JsonModel> {
    Seq::new(items.len(), |i: int| json_tree(items[i]))
}

/// The names and trees that a list of parsed members holds, in order.
pub open spec fn member_trees(members: Seq<(&String, &serde_json::Value)>) -> Seq<
    (Seq<char>, JsonModel),
> {
    Seq::new(members.len(), |i: int| (members[i].0@, json_tree(*members[i].1)))
}

/// The outermost level of a parsed JSON value: what kind of value it is, with
/// what it holds still as parsed.
pub(crate) enum Level<'a> {
    Null,
    Bool(bool),
    Number(&'a serde_json::Number),
    String(&'a str),
    Array(&'a Vec<serde_json::Value>),
    Object(&'a serde_json::Map<String, serde_json::Value>),
}

/// Tells the variants of `serde_json::Value` apart and hands out what each
/// holds.
///
/// Trusted: the tree of the value is of the same kind and holds what the
/// variant holds.
#[verifier::external_body]
pub(crate) fn open_level(value: &serde_json::Value) -> (level: Level<'_>)
    ensures
        json_tree(*value) == match level {
            Level::Null => JsonModel::Null,
            Level::Bool(flag) => JsonModel::Bool(flag),
            Level::Number(number) => JsonModel::Number(number_unsigned(*number)),
            Level::String(text) => JsonModel::String(text@),
            Level::Array(items) => JsonModel::Array(trees(items@)),
            Level::Object(members) => JsonModel::Object(map_members(*members)),
        },
{
    match value {
        serde_json::Value::Null => Level::Null,
        serde_json::Value::Bool(flag) => Level::Bool(*flag),
        serde_json::Value::Number(number) => Level::Number(number),
        serde_json::Value::String(text) => Level::String(text),
        serde_json::Value::Array(items) => Level::Array(items),
        serde_json::Value::Object(members) => Level::Object(members),
    }
}

/// Reads a number with `serde_json::Number::as_u64`.
///
/// Trusted: the result depends on the number alone.
#[verifier::external_body]
pub(crate) fn unsigned_in(number: &serde_json::Number) -> (found: Option<u64>)
    ensures
        found == number_unsigned(*number),
{
    number.as_u64()
}

/// Walks the members of an object with `serde_json::Map::iter`.
///
/// Trusted: the members come out one for one, in the order in which the map
/// yields them.
#[verifier::external_body]
pub(crate) fn members_in<'a>(members: &'a serde_json::Map<String, serde_json::Value>) -> (found:
    Vec<(&'a String, &'a serde_json::Value)>)
    ensures
        member_trees(found@) == map_members(*members),
{
    members.iter().collect()
}

/// Copies a parsed value into a tree of plain values, level by level.
pub(crate) fn lift(value: &serde_json::Value) -> (tree: JsonValue)
    ensures
        tree@ == json_tree(*value),
    decreases json_tree(*value),
{
    match open_level(value) {
        Level::Null => JsonValue::Null,
        Level::Bool(flag) => JsonValue::Bool(flag),
        Level::Number(number) => JsonValue::Number(unsigned_in(number)),
        Level::String(text) => JsonValue::String(text.to_owned()),
        Level::Array(items) => {
            let mut copies: Vec<JsonValue> = Vec::new();
            let mut i: usize = 0;
            while i < items.len()
                invariant
                    i <= items@.len(),
                    copies@.len() == i,
                    json_tree(*value) == JsonModel::Array(trees(items@)),
                    forall|k: int| 0 <= k < i ==> (#[trigger] copies@[k])@ == json_tree(items@[k]),
                decreases items@.len() - i,
            {
                proof {
                    let whole = json_tree(*value);
                    assert(whole->Array_0[i as int] == json_tree(items@[i as int]));
                    assert(decreases_to!(whole => whole->Array_0));
                    assert(decreases_to!(whole->Array_0 => whole->Array_0[i as int]));
                }
                copies.push(lift(&items[i]));
                i += 1;
            }
            let tree = JsonValue::Array(copies);
            assert(tree@->Array_0 =~= trees(items@));
            tree
        },
        Level::Object(held) => {
            let members = members_in(held);
            let mut copies: Vec<(String, JsonValue)> = Vec::new();
            let mut i: usize = 0;
            while i < members.len()
                invariant
                    i <= members@.len(),
                    copies@.len() == i,
                    json_tree(*value) == JsonModel::Object(member_trees(members@)),
                    forall|k: int|
                        0 <= k < i ==> (#[trigger] copies@[k]).0@ == members@[k].0@ && copies@[k].1@
                            == json_tree(*members@[k].1),
                decreases members@.len() - i,
            {
                proof {
                    let whole = json_tree(*value);
                    assert(whole->Object_0[i as int].1 == json_tree(*members@[i as int].1));
                    assert(decreases_to!(whole => whole->Object_0));
                    assert(decreases_to!(whole->Object_0 => whole->Object_0[i as int]));
                    assert(decreases_to!(whole->Object_0[i as int] => whole->Object_0[i as int].1));
                }
                let name = members[i].0.clone();
                let inner = lift(members[i].1);
                copies.push((name, inner));
                i += 1;
            }
            let tree = JsonValue::Object(copies);
            assert(tree@->Object_0 =~= member_trees(members@));
            tree
        },
    }
}

/// Parses a text as one JSON document.
pub fn parse_document(text: &str) -> (document: Option<JsonValue>)
    ensures
        match document {
            Some(tree) => json_document(text@) == Some(tree@),
            None => json_document(text@) is None,
        },
{
    match parse_value(text) {
        Ok(value) => Some(lift(&value)),
        Err(_) => None,
    }
}

} // verus!
