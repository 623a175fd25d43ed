//! JSON values.
use crate::text;
use serde_json::{Number, Value};
use vstd::prelude::*;
use vstd::string::*;

verus! {

/// A number of a JSON text, kept as `serde_json` holds it.
#[verifier::external_type_specification]
#[verifier::external_body]
pub struct ExNumber(serde_json::Number);

/// A JSON value as `serde_json` holds it.
#[verifier::external_type_specification]
#[verifier::external_body]
pub struct ExValue(serde_json::Value);

/// A JSON value. An object lists its members in order.
pub enum Json {
    Null,
    Bool(bool),
    Number(Number),
    Text(String),
    Array(Vec<Json>),
    Object(Vec<(String, Json)>),
}

/// What a JSON value holds.
pub enum JsonTree {
    Null,
    Bool(bool),
    Number(Number),
    Text(Seq<char>),
    Array(Seq<JsonTree>),
    Object(Seq<(Seq<char>, JsonTree)>),
}

impl Json {
    /// What the value holds.
    pub open spec fn tree(&self) -> JsonTree
        decreases self,
    {
        match self {
            Json::Null => JsonTree::Null,
            Json::Bool(flag) => JsonTree::Bool(*flag),
            Json::Number(number) => JsonTree::Number(*number),
            Json::Text(text) => JsonTree::Text(text@),
            Json::Array(items) => JsonTree::Array(trees(items@)),
            Json::Object(members) => JsonTree::Object(member_trees(members@)),
        }
    }
}

/// What each of `items` holds.
pub open spec fn trees(items: Seq<Json>) -> Seq<JsonTree>
    decreases items,
{
    Seq::new(
        items.len(),
        |i: int|
            if 0 <= i < items.len() {
                items[i].tree()
            } else {
                JsonTree::Null
            },
    )
}

/// What each of `members` holds, with its key.
pub open spec fn member_trees(members: Seq<(String, Json)>) -> Seq<(Seq<char>, JsonTree)>
    decreases members,
{
    Seq::new(
        members.len(),
        |i: int|
            if 0 <= i < members.len() {
                (members[i].0@, members[i].1.tree())
            } else {
                (Seq::<char>::empty(), JsonTree::Null)
            },
    )
}

/// The place of the first member with the key `key`; the number of members
/// where there is none.
pub open spec fn place_of(members: Seq<(Seq<char>, JsonTree)>, key: Seq<char>) -> int
    decreases members.len(),
{
    if members.len() == 0 || members[0].0 == key {
        0
    } else {
        1 + place_of(members.skip(1), key)
    }
}

/// `members` with `value` at `key`: in the place of the member that had that
/// key, or at the end.
pub open spec fn with_member(
    members: Seq<(Seq<char>, JsonTree)>,
    key: Seq<char>,
    value: JsonTree,
) -> Seq<(Seq<char>, JsonTree)> {
    let at = place_of(members, key);
    if at < members.len() {
        members.update(at, (key, value))
    } else {
        members.push((key, value))
    }
}

/// A key stands at the first place where it is found.
pub proof fn lemma_place_of(members: Seq<(Seq<char>, JsonTree)>, key: Seq<char>, at: int)
    requires
        0 <= at <= members.len(),
        forall|i: int| 0 <= i < at ==> (#[trigger] members[i]).0 != key,
        at < members.len() ==> members[at].0 == key,
    ensures
        place_of(members, key) == at,
    decreases members.len(),
{
    if at > 0 {
        assert(members[0].0 != key);
        let rest = members.skip(1);
        assert forall|i: int| 0 <= i < at - 1 implies (#[trigger] rest[i]).0 != key by {
            assert(rest[i] == members[i + 1]);
        }
        lemma_place_of(rest, key, at - 1);
    }
}

/// The place of a key is the first one with that key, or the number of members.
pub proof fn lemma_found_place(members: Seq<(Seq<char>, JsonTree)>, key: Seq<char>)
    ensures
        0 <= place_of(members, key) <= members.len(),
        place_of(members, key) < members.len() ==> members[place_of(members, key)].0 == key,
        forall|i: int|
            0 <= i < place_of(members, key) ==> (#[trigger] members[i]).0 != key,
    decreases members.len(),
{
    if members.len() > 0 && members[0].0 != key {
        let rest = members.skip(1);
        lemma_found_place(rest, key);
        assert forall|i: int| 0 <= i < 1 + place_of(rest, key) implies (
        #[trigger] members[i]).0 != key by {
            if i > 0 {
                assert(rest[i - 1] == members[i]);
            }
        }
    }
}

/// What is put at a key is found there, and what stands at other keys stays.
pub proof fn law_member_is_found(
    members: Seq<(Seq<char>, JsonTree)>,
    key: Seq<char>,
    value: JsonTree,
    other: Seq<char>,
)
    ensures
        JsonTree::Object(with_member(members, key, value)).get(key) == Some(value),
        other != key ==> JsonTree::Object(with_member(members, key, value)).get(other)
            == JsonTree::Object(members).get(other),
{
    let at = place_of(members, key);
    let out = with_member(members, key, value);
    lemma_found_place(members, key);
    lemma_place_of(out, key, at);
    if other != key {
        let there = place_of(members, other);
        lemma_found_place(members, other);
        if there < members.len() {
            assert forall|i: int| 0 <= i < there implies (#[trigger] out[i]).0 != other by {
                assert(members[i].0 != other);
            }
            lemma_place_of(out, other, there);
        } else {
            assert forall|i: int| 0 <= i < out.len() implies (#[trigger] out[i]).0 != other by {
                if i < members.len() {
                    assert(members[i].0 != other);
                }
            }
            lemma_place_of(out, other, out.len() as int);
        }
    }
}

impl JsonTree {
    /// The member `key` of an object.
    pub open spec fn get(self, key: Seq<char>) -> Option<JsonTree> {
        match self {
            JsonTree::Object(members) => {
                let at = place_of(members, key);
                if at < members.len() {
                    Some(members[at].1)
                } else {
                    None
                }
            },
            _ => None,
        }
    }

    /// The text of a string.
    pub open spec fn as_text(self) -> Option<Seq<char>> {
        match self {
            JsonTree::Text(text) => Some(text),
            _ => None,
        }
    }

    /// The truth value of a boolean.
    pub open spec fn as_bool(self) -> Option<bool> {
        match self {
            JsonTree::Bool(flag) => Some(flag),
            _ => None,
        }
    }

    /// The value of a number that is a whole number from zero to `u64::MAX`.
    pub open spec fn as_u64(self) -> Option<u64> {
        match self {
            JsonTree::Number(number) => number_u64(number),
            _ => None,
        }
    }

    /// The items of an array.
    pub open spec fn as_array(self) -> Option<Seq<JsonTree>> {
        match self {
            JsonTree::Array(items) => Some(items),
            _ => None,
        }
    }
}

/// The text of the member `key`, where it is a string.
pub open spec fn text_member(tree: JsonTree, key: Seq<char>) -> Option<Seq<char>> {
    match tree.get(key) {
        Some(value) => value.as_text(),
        None => None,
    }
}

/// The items of the member `key`, where it is an array.
pub open spec fn array_member(tree: JsonTree, key: Seq<char>) -> Option<Seq<JsonTree>> {
    match tree.get(key) {
        Some(value) => value.as_array(),
        None => None,
    }
}

/// What a `serde_json::Value` holds. The members of an object are listed as the
/// map of that crate walks them: by ascending key.
pub uninterp spec fn value_tree(value: Value) -> JsonTree;

/// What `Number::as_u64` returns.
pub uninterp spec fn number_u64(number: Number) -> Option<u64>;

/// The number that `Number::from` makes of `n`.
pub uninterp spec fn whole_number(n: u64) -> Number;

/// What `serde_json::from_slice` reads from `bytes`, or what it says of them where
/// they are not JSON.
pub uninterp spec fn slice_result(bytes: Seq<u8>) -> Result<JsonTree, Seq<char>>;

/// The value that `bytes` spell, where they are JSON.
pub open spec fn parsed_bytes(bytes: Seq<u8>) -> Option<JsonTree> {
    match slice_result(bytes) {
        Ok(tree) => Some(tree),
        Err(_) => None,
    }
}

/// What `serde_json::from_str` reads from `text`, where it is JSON.
pub uninterp spec fn parsed_text(text: Seq<char>) -> Option<JsonTree>;

/// What `serde_json::to_vec` writes, where it succeeds.
pub uninterp spec fn json_bytes(tree: JsonTree) -> Option<Seq<u8>>;

/// What the `Display` of a `serde_json::Value` writes.
pub uninterp spec fn json_text(tree: JsonTree) -> Seq<char>;

/// Calls `Number::as_u64`; its result is named `number_u64`.
#[verifier::external_body]
fn number_as_u64(number: &Number) -> (r: Option<u64>)
    ensures
        r == number_u64(*number),
{
    number.as_u64()
}

/// Calls `Number::from` on a `u64`. The number is named `whole_number`, and
/// reading it as a `u64` gives `n` back.
#[verifier::external_body]
fn number_from_u64(n: u64) -> (r: Number)
    ensures
        r == whole_number(n),
        number_u64(r) == Some(n),
{
    Number::from(n)
}

/// Calls `Number::clone`: the copy is the same number.
#[verifier::external_body]
fn number_clone(number: &Number) -> (r: Number)
    ensures
        r == *number,
{
    number.clone()
}

/// The parts of a `serde_json::Value`.
enum ValueParts<'a> {
    Null,
    Bool(bool),
    Number(&'a Number),
    Text(&'a String),
    Array(&'a Vec<Value>),
    Object(Vec<(&'a String, &'a Value)>),
}

/// What each of `items` holds.
spec fn value_trees(items: Seq<Value>) -> Seq<JsonTree> {
    Seq::new(items.len(), |i: int| value_tree(items[i]))
}

/// What each of `members` holds, with its key.
spec fn value_members(members: Seq<(&String, &Value)>) -> Seq<(Seq<char>, JsonTree)> {
    Seq::new(members.len(), |i: int| (members[i].0@, value_tree(*members[i].1)))
}

/// What a value made of `parts` holds.
spec fn parts_tree(parts: ValueParts<'_>) -> JsonTree {
    match parts {
        ValueParts::Null => JsonTree::Null,
        ValueParts::Bool(flag) => JsonTree::Bool(flag),
        ValueParts::Number(number) => JsonTree::Number(*number),
        ValueParts::Text(text) => JsonTree::Text(text@),
        ValueParts::Array(items) => JsonTree::Array(value_trees(items@)),
        ValueParts::Object(members) => JsonTree::Object(value_members(members@)),
    }
}

/// Tells the variants of `serde_json::Value` apart and hands out their fields;
/// the members of an object come as `Map::iter` yields them.
#[verifier::external_body]
fn value_parts<'a>(value: &'a Value) -> (r: ValueParts<'a>)
    ensures
        parts_tree(r) == value_tree(*value),
{
    match value {
        Value::Null => ValueParts::Null,
        Value::Bool(flag) => ValueParts::Bool(*flag),
        Value::Number(number) => ValueParts::Number(number),
        Value::String(text) => ValueParts::Text(text),
        Value::Array(items) => ValueParts::Array(items),
        Value::Object(members) => ValueParts::Object(members.iter().collect()),
    }
}

/// The library's form of `value`.
fn json_from_value(value: &Value) -> (r: Json)
    ensures
        r.tree() == value_tree(*value),
    decreases value_tree(*value),
{
    let ghost tree = value_tree(*value);
    match value_parts(value) {
        ValueParts::Null => Json::Null,
        ValueParts::Bool(flag) => Json::Bool(flag),
        ValueParts::Number(number) => Json::Number(number_clone(number)),
        ValueParts::Text(text) => Json::Text(text.clone()),
        ValueParts::Array(items) => {
            let mut out: Vec<Json> = Vec::new();
            let mut i: usize = 0;
            while i < items.len()
                invariant
                    i <= items@.len(),
                    out@.len() == i,
                    tree == value_tree(*value),
                    tree == JsonTree::Array(value_trees(items@)),
                    forall|j: int|
                        0 <= j < i ==> (#[trigger] out@[j]).tree() == value_tree(items@[j]),
                decreases items@.len() - i,
            {
                assert(value_trees(items@)[i as int] == value_tree(items@[i as int]));
                assert(decreases_to!(tree => tree->Array_0));
                assert(decreases_to!(tree->Array_0 => tree->Array_0[i as int]));
                out.push(json_from_value(&items[i]));
                i += 1;
            }
            assert(trees(out@) =~= value_trees(items@));
            Json::Array(out)
        },
        ValueParts::Object(members) => {
            let mut out: Vec<(String, Json)> = Vec::new();
            let mut i: usize = 0;
            while i < members.len()
                invariant
                    i <= members@.len(),
                    out@.len() == i,
                    tree == value_tree(*value),
                    tree == JsonTree::Object(value_members(members@)),
                    forall|j: int|
                        0 <= j < i ==> (#[trigger] out@[j]).0@ == members@[j].0@ && out@[j].1.tree()
                            == value_tree(*members@[j].1),
                decreases members@.len() - i,
            {
                assert(value_members(members@)[i as int].1 == value_tree(*members@[i as int].1));
                assert(decreases_to!(tree => tree->Object_0));
                assert(decreases_to!(tree->Object_0 => tree->Object_0[i as int]));
                assert(decreases_to!(tree->Object_0[i as int] => tree->Object_0[i as int].1));
                out.push((members[i].0.clone(), json_from_value(members[i].1)));
                i += 1;
            }
            assert(member_trees(out@) =~= value_members(members@));
            Json::Object(out)
        },
    }
}

/// The parts of which a `serde_json::Value` other than an object is made.
enum ValueSeed {
    Null,
    Bool(bool),
    Number(Number),
    Text(String),
    Array(Vec<Value>),
}

/// What a value made of `seed` holds.
spec fn seed_tree(seed: ValueSeed) -> JsonTree {
    match seed {
        ValueSeed::Null => JsonTree::Null,
        ValueSeed::Bool(flag) => JsonTree::Bool(flag),
        ValueSeed::Number(number) => JsonTree::Number(number),
        ValueSeed::Text(text) => JsonTree::Text(text@),
        ValueSeed::Array(items) => JsonTree::Array(value_trees(items@)),
    }
}

/// Makes a `serde_json::Value` of the variant that goes with `seed`.
#[verifier::external_body]
fn value_of_seed(seed: ValueSeed) -> (r: Value)
    ensures
        value_tree(r) == seed_tree(seed),
{
    match seed {
        ValueSeed::Null => Value::Null,
        ValueSeed::Bool(flag) => Value::Bool(flag),
        ValueSeed::Number(number) => Value::Number(number),
        ValueSeed::Text(text) => Value::String(text),
        ValueSeed::Array(items) => Value::Array(items),
    }
}

/// Makes an object of an empty `serde_json::Map`, as `Map::new` gives it.
#[verifier::external_body]
fn empty_object() -> (r: Value)
    ensures
        value_tree(r) == JsonTree::Object(Seq::<(Seq<char>, JsonTree)>::empty()),
{
    Value::Object(serde_json::Map::new())
}

/// `members`, which ascend by key, with `member` at its place: instead of the
/// one that had its key, or between its neighbours.
pub open spec fn placed(
    members: Seq<(Seq<char>, JsonTree)>,
    member: (Seq<char>, JsonTree),
) -> Seq<(Seq<char>, JsonTree)>
    decreases members.len(),
{
    if members.len() == 0 {
        seq![member]
    } else if members[0].0 == member.0 {
        seq![member] + members.skip(1)
    } else if text::text_before(member.0, members[0].0) {
        seq![member] + members
    } else {
        seq![members[0]] + placed(members.skip(1), member)
    }
}

/// Calls `Map::insert` on the map of an object: the value takes the place of the
/// one that had its key, or stands between its neighbours by ascending key.
#[verifier::external_body]
fn object_insert(object: &mut Value, key: String, item: Value)
    requires
        value_tree(*old(object)) is Object,
    ensures
        value_tree(*final(object)) == JsonTree::Object(
            placed(value_tree(*old(object))->Object_0, (key@, value_tree(item))),
        ),
{
    if let Value::Object(members) = object {
        members.insert(key, item);
    }
}

/// `members` by ascending key, the last one of those that share a key.
pub open spec fn by_key(members: Seq<(Seq<char>, JsonTree)>) -> Seq<(Seq<char>, JsonTree)>
    decreases members.len(),
{
    if members.len() == 0 {
        members
    } else {
        placed(by_key(members.drop_last()), members.last())
    }
}

/// `tree` with the members of each object by ascending key.
pub open spec fn sorted_tree(tree: JsonTree) -> JsonTree
    decreases tree,
{
    match tree {
        JsonTree::Array(items) => JsonTree::Array(sorted_items(items)),
        JsonTree::Object(members) => JsonTree::Object(by_key(sorted_members(members))),
        _ => tree,
    }
}

/// Each of `items` with the members of its objects by ascending key.
pub open spec fn sorted_items(items: Seq<JsonTree>) -> Seq<JsonTree>
    decreases items,
{
    Seq::new(
        items.len(),
        |i: int|
            if 0 <= i < items.len() {
                sorted_tree(items[i])
            } else {
                JsonTree::Null
            },
    )
}

/// Each of `members` with the members of its objects by ascending key.
pub open spec fn sorted_members(members: Seq<(Seq<char>, JsonTree)>) -> Seq<(Seq<char>, JsonTree)>
    decreases members,
{
    Seq::new(
        members.len(),
        |i: int|
            if 0 <= i < members.len() {
                (members[i].0, sorted_tree(members[i].1))
            } else {
                (Seq::<char>::empty(), JsonTree::Null)
            },
    )
}

/// The `serde_json` form of `json`.
fn json_to_value(json: &Json) -> (r: Value)
    ensures
        value_tree(r) == sorted_tree(json.tree()),
    decreases json,
{
    match json {
        Json::Null => value_of_seed(ValueSeed::Null),
        Json::Bool(flag) => value_of_seed(ValueSeed::Bool(*flag)),
        Json::Number(number) => value_of_seed(ValueSeed::Number(number_clone(number))),
        Json::Text(text) => value_of_seed(ValueSeed::Text(text.clone())),
        Json::Array(items) => {
            let ghost whole = sorted_tree(json.tree())->Array_0;
            let mut out: Vec<Value> = Vec::new();
            let mut i: usize = 0;
            while i < items.len()
                invariant
                    i <= items@.len(),
                    out@.len() == i,
                    *json == Json::Array(*items),
                    whole.len() == items@.len(),
                    forall|j: int|
                        0 <= j < items@.len() ==> #[trigger] whole[j] == sorted_tree(
                            items@[j].tree(),
                        ),
                    forall|j: int| 0 <= j < i ==> value_tree(#[trigger] out@[j]) == whole[j],
                decreases items@.len() - i,
            {
                assert(decreases_to!(*json => json->Array_0));
                assert(decreases_to!(items@ => items@[i as int]));
                out.push(json_to_value(&items[i]));
                i += 1;
            }
            assert(value_trees(out@) =~= whole);
            value_of_seed(ValueSeed::Array(out))
        },
        Json::Object(members) => {
            let ghost whole = Seq::new(
                members@.len(),
                |j: int| (members@[j].0@, sorted_tree(members@[j].1.tree())),
            );
            let mut out: Value = empty_object();
            let mut i: usize = 0;
            assert(whole.take(0) =~= Seq::<(Seq<char>, JsonTree)>::empty());
            while i < members.len()
                invariant
                    i <= members@.len(),
                    *json == Json::Object(*members),
                    whole.len() == members@.len(),
                    forall|j: int|
                        0 <= j < members@.len() ==> #[trigger] whole[j] == (
                            members@[j].0@,
                            sorted_tree(members@[j].1.tree()),
                        ),
                    value_tree(out) == JsonTree::Object(by_key(whole.take(i as int))),
                decreases members@.len() - i,
            {
                assert(decreases_to!(*json => json->Object_0));
                assert(decreases_to!(members@ => members@[i as int]));
                assert(decreases_to!(members@[i as int] => members@[i as int].1));
                assert(whole.take(i + 1).drop_last() =~= whole.take(i as int));
                let item: Value = json_to_value(&members[i].1);
                object_insert(&mut out, members[i].0.clone(), item);
                i += 1;
            }
            assert(whole.take(members@.len() as int) =~= whole);
            assert(whole =~= sorted_members(member_trees(members@)));
            out
        },
    }
}

/// Calls `serde_json::from_slice` for a `Value`. What the value holds, or the text
/// of the error where the bytes are not JSON, is named `slice_result`.
#[verifier::external_body]
fn value_from_slice(bytes: &[u8]) -> (r: Result<Value, String>)
    ensures
        match r {
            Ok(value) => slice_result(bytes@) == Ok::<JsonTree, Seq<char>>(value_tree(value)),
            Err(error) => slice_result(bytes@) == Err::<JsonTree, Seq<char>>(error@),
        },
{
    serde_json::from_slice(bytes).map_err(|error: serde_json::Error| error.to_string())
}

/// Calls `serde_json::from_str` for a `Value`. What the value holds is named
/// `parsed_text`; there is none where the text is not JSON.
#[verifier::external_body]
fn value_from_str(text: &str) -> (r: Option<Value>)
    ensures
        match r {
            Some(value) => parsed_text(text@) == Some(value_tree(value)),
            None => parsed_text(text@) is None,
        },
{
    serde_json::from_str(text).ok()
}

/// Calls `serde_json::to_vec`; what it writes of what `value` holds is named
/// `json_bytes`.
#[verifier::external_body]
fn value_to_vec(value: &Value) -> (r: Option<Vec<u8>>)
    ensures
        match r {
            Some(bytes) => json_bytes(value_tree(*value)) == Some(bytes@),
            None => json_bytes(value_tree(*value)) is None,
        },
{
    serde_json::to_vec(value).ok()
}

/// Calls the `to_string` of a `serde_json::Value`; what it writes of what `value`
/// holds is named `json_text`.
#[verifier::external_body]
fn value_to_string(value: &Value) -> (r: String)
    ensures
        r@ == json_text(value_tree(*value)),
{
    value.to_string()
}

/// The tree of what may be there.
pub open spec fn maybe_tree(json: Option<Json>) -> Option<JsonTree> {
    match json {
        Some(value) => Some(value.tree()),
        None => None,
    }
}

/// The tree of what may be there.
pub open spec fn maybe_tree_ref(json: Option<&Json>) -> Option<JsonTree> {
    match json {
        Some(value) => Some(value.tree()),
        None => None,
    }
}

impl Json {
    /// The value that `bytes` spell, or why they spell none.
    pub fn read(bytes: &[u8]) -> (r: Result<Json, String>)
        ensures
            match r {
                Ok(value) => slice_result(bytes@) == Ok::<JsonTree, Seq<char>>(value.tree()),
                Err(error) => slice_result(bytes@) == Err::<JsonTree, Seq<char>>(error@),
            },
    {
        match value_from_slice(bytes) {
            Ok(value) => Ok(json_from_value(&value)),
            Err(error) => Err(error),
        }
    }

    /// The value that `bytes` spell.
    pub fn parse(bytes: &[u8]) -> (r: Option<Json>)
        ensures
            maybe_tree(r) == parsed_bytes(bytes@),
    {
        match Self::read(bytes) {
            Ok(value) => Some(value),
            Err(_) => None,
        }
    }

    /// The value that `text` spells.
    pub fn parse_text(text: &str) -> (r: Option<Json>)
        ensures
            maybe_tree(r) == parsed_text(text@),
    {
        match value_from_str(text) {
            Some(value) => Some(json_from_value(&value)),
            None => None,
        }
    }

    /// The bytes that spell the value, the members of each object by ascending key.
    pub fn to_bytes(&self) -> (r: Option<Vec<u8>>)
        ensures
            match r {
                Some(bytes) => json_bytes(sorted_tree(self.tree())) == Some(bytes@),
                None => json_bytes(sorted_tree(self.tree())) is None,
            },
    {
        value_to_vec(&json_to_value(self))
    }

    /// The text that spells the value, the members of each object by ascending key.
    pub fn to_text(&self) -> (r: String)
        ensures
            r@ == json_text(sorted_tree(self.tree())),
    {
        value_to_string(&json_to_value(self))
    }

    /// A string.
    pub fn text(text: &str) -> (r: Json)
        ensures
            r.tree() == JsonTree::Text(text@),
    {
        Json::Text(text.to_owned())
    }

    /// A whole number.
    pub fn whole(n: u64) -> (r: Json)
        ensures
            r.tree() == JsonTree::Number(whole_number(n)),
            r.tree().as_u64() == Some(n),
    {
        Json::Number(number_from_u64(n))
    }

    /// An object without members.
    pub fn object() -> (r: Json)
        ensures
            r.tree() == JsonTree::Object(Seq::<(Seq<char>, JsonTree)>::empty()),
    {
        let r: Json = Json::Object(Vec::new());
        assert(r.tree()->Object_0 =~= Seq::<(Seq<char>, JsonTree)>::empty());
        r
    }

    /// Is the value an object?
    pub fn is_object(&self) -> (r: bool)
        ensures
            r == (self.tree() is Object),
    {
        match self {
            Json::Object(_) => true,
            _ => false,
        }
    }

    /// The place of the first of `members` with the key `key`.
    fn member_place(members: &Vec<(String, Json)>, key: &str) -> (r: usize)
        ensures
            r == place_of(member_trees(members@), key@),
            r <= members@.len(),
    {
        let ghost listed = member_trees(members@);
        let mut i: usize = 0;
        assert(listed.skip(0) =~= listed);
        while i < members.len() && !text::same_text(members[i].0.as_str(), key)
            invariant
                i <= members@.len(),
                listed == member_trees(members@),
                place_of(listed, key@) == i + place_of(listed.skip(i as int), key@),
            decreases members@.len() - i,
        {
            assert(listed.skip(i as int).skip(1) =~= listed.skip(i + 1));
            i += 1;
        }
        i
    }

    /// The member `key` of an object.
    pub fn get(&self, key: &str) -> (r: Option<&Json>)
        ensures
            maybe_tree_ref(r) == self.tree().get(key@),
    {
        match self {
            Json::Object(members) => {
                let at: usize = Self::member_place(members, key);
                if at < members.len() {
                    Some(&members[at].1)
                } else {
                    None
                }
            },
            _ => None,
        }
    }

    /// The text of a string.
    pub fn as_text(&self) -> (r: Option<&str>)
        ensures
            match r {
                Some(text) => self.tree().as_text() == Some(text@),
                None => self.tree().as_text() is None,
            },
    {
        match self {
            Json::Text(text) => Some(text.as_str()),
            _ => None,
        }
    }

    /// The truth value of a boolean.
    pub fn as_bool(&self) -> (r: Option<bool>)
        ensures
            r == self.tree().as_bool(),
    {
        match self {
            Json::Bool(flag) => Some(*flag),
            _ => None,
        }
    }

    /// The value of a whole number.
    pub fn as_u64(&self) -> (r: Option<u64>)
        ensures
            r == self.tree().as_u64(),
    {
        match self {
            Json::Number(number) => number_as_u64(number),
            _ => None,
        }
    }

    /// The items of an array.
    pub fn as_array(&self) -> (r: Option<&Vec<Json>>)
        ensures
            match r {
                Some(items) => self.tree().as_array() == Some(trees(items@)),
                None => self.tree().as_array() is None,
            },
    {
        match self {
            Json::Array(items) => Some(items),
            _ => None,
        }
    }

    /// The text of the member `key`, where it is a string.
    pub fn text_member(&self, key: &str) -> (r: Option<&str>)
        ensures
            match r {
                Some(text) => text_member(self.tree(), key@) == Some(text@),
                None => text_member(self.tree(), key@) is None,
            },
    {
        match self.get(key) {
            Some(value) => value.as_text(),
            None => None,
        }
    }

    /// The items of the member `key`, where it is an array.
    pub fn array_member(&self, key: &str) -> (r: Option<&Vec<Json>>)
        ensures
            match r {
                Some(items) => array_member(self.tree(), key@) == Some(trees(items@)),
                None => array_member(self.tree(), key@) is None,
            },
    {
        match self.get(key) {
            Some(value) => value.as_array(),
            None => None,
        }
    }

    /// Puts `value` at `key` of an object; any other value stays as it is.
    pub fn set(&mut self, key: &str, value: Json)
        ensures
            final(self).tree() == (match old(self).tree() {
                JsonTree::Object(members) => JsonTree::Object(
                    with_member(members, key@, value.tree()),
                ),
                other => other,
            }),
    {
        match self {
            Json::Object(members) => {
                let ghost before = members@;
                let at: usize = Self::member_place(members, key);
                if at < members.len() {
                    members.set(at, (key.to_owned(), value));
                } else {
                    members.push((key.to_owned(), value));
                }
                assert(member_trees(members@) =~= with_member(
                    member_trees(before),
                    key@,
                    value.tree(),
                ));
            },
            _ => {},
        }
    }

    /// The value with the members of each object by ascending key.
    pub fn in_key_order(&self) -> (r: Json)
        ensures
            r.tree() == sorted_tree(self.tree()),
    {
        json_from_value(&json_to_value(self))
    }

    /// A copy of the value.
    pub fn copied(&self) -> (r: Json)
        ensures
            r.tree() == self.tree(),
        decreases self,
    {
        match self {
            Json::Null => Json::Null,
            Json::Bool(flag) => Json::Bool(*flag),
            Json::Number(number) => Json::Number(number_clone(number)),
            Json::Text(text) => Json::Text(text.clone()),
            Json::Array(items) => {
                let mut out: Vec<Json> = Vec::new();
                let mut i: usize = 0;
                while i < items.len()
                    invariant
                        i <= items@.len(),
                        out@.len() == i,
                        *self == Json::Array(*items),
                        forall|j: int|
                            0 <= j < i ==> (#[trigger] out@[j]).tree() == items@[j].tree(),
                    decreases items@.len() - i,
                {
                    assert(decreases_to!(*self => self->Array_0));
                    assert(decreases_to!(items@ => items@[i as int]));
                    out.push(items[i].copied());
                    i += 1;
                }
                assert(trees(out@) =~= trees(items@));
                Json::Array(out)
            },
            Json::Object(members) => {
                let mut out: Vec<(String, Json)> = Vec::new();
                let mut i: usize = 0;
                while i < members.len()
                    invariant
                        i <= members@.len(),
                        out@.len() == i,
                        *self == Json::Object(*members),
                        forall|j: int|
                            0 <= j < i ==> (#[trigger] out@[j]).0@ == members@[j].0@
                                && out@[j].1.tree() == members@[j].1.tree(),
                    decreases members@.len() - i,
                {
                    assert(decreases_to!(*self => self->Object_0));
                    assert(decreases_to!(members@ => members@[i as int]));
                    assert(decreases_to!(members@[i as int] => members@[i as int].1));
                    out.push((members[i].0.clone(), members[i].1.copied()));
                    i += 1;
                }
                assert(member_trees(out@) =~= member_trees(members@));
                Json::Object(out)
            },
        }
    }
}

/// The member `key` of what may be there.
pub open spec fn member_of(tree: Option<JsonTree>, key: Seq<char>) -> Option<JsonTree> {
    match tree {
        Some(value) => value.get(key),
        None => None,
    }
}

/// The text of what may be there.
pub open spec fn text_in(tree: Option<JsonTree>) -> Option<Seq<char>> {
    match tree {
        Some(value) => value.as_text(),
        None => None,
    }
}

/// The member `key` of what may be there.
pub fn member_in<'a>(value: Option<&'a Json>, key: &str) -> (r: Option<&'a Json>)
    ensures
        maybe_tree_ref(r) == member_of(maybe_tree_ref(value), key@),
{
    match value {
        Some(value) => value.get(key),
        None => None,
    }
}

/// The text of what may be there.
pub fn text_found<'a>(value: Option<&'a Json>) -> (r: Option<&'a str>)
    ensures
        text::maybe_str(r) == text_in(maybe_tree_ref(value)),
{
    match value {
        Some(value) => value.as_text(),
        None => None,
    }
}

/// The value that is reached from `tree` through the members that `path` names.
pub open spec fn at_path(tree: Option<JsonTree>, path: Seq<Seq<char>>) -> Option<JsonTree>
    decreases path.len(),
{
    if path.len() == 0 || tree is None {
        tree
    } else {
        at_path(tree->0.get(path[0]), path.skip(1))
    }
}

/// The first whole number that one of `paths` leads to; zero where none does.
pub open spec fn first_number(tree: Option<JsonTree>, paths: Seq<Seq<Seq<char>>>) -> u64
    decreases paths.len(),
{
    if paths.len() == 0 {
        0
    } else {
        match at_path(tree, paths[0]) {
            Some(JsonTree::Number(number)) if number_u64(number) is Some => number_u64(number)->0,
            _ => first_number(tree, paths.skip(1)),
        }
    }
}

/// The names along each of `paths`.
pub open spec fn path_names(paths: Seq<Vec<&str>>) -> Seq<Seq<Seq<char>>> {
    Seq::new(paths.len(), |i: int| text::strs(paths[i]@))
}

/// The first whole number that one of `paths` leads to; zero where none does.
pub fn first_u64(root: Option<&Json>, paths: &Vec<Vec<&str>>) -> (r: u64)
    ensures
        r == first_number(maybe_tree_ref(root), path_names(paths@)),
{
    let ghost tree = maybe_tree_ref(root);
    let ghost all = path_names(paths@);
    let mut i: usize = 0;
    assert(all.skip(0) =~= all);
    while i < paths.len()
        invariant
            i <= paths@.len(),
            tree == maybe_tree_ref(root),
            all == path_names(paths@),
            first_number(tree, all) == first_number(tree, all.skip(i as int)),
        decreases paths@.len() - i,
    {
        let path: &Vec<&str> = &paths[i];
        let ghost way = text::strs(path@);
        let mut current: Option<&Json> = root;
        let mut j: usize = 0;
        assert(way.skip(0) =~= way);
        while j < path.len()
            invariant
                j <= path@.len(),
                way == text::strs(path@),
                at_path(tree, way) == at_path(maybe_tree_ref(current), way.skip(j as int)),
            decreases path@.len() - j,
        {
            current = match current {
                Some(value) => value.get(path[j]),
                None => None,
            };
            assert(way.skip(j as int).skip(1) =~= way.skip(j + 1));
            j += 1;
        }
        assert(all.skip(i as int)[0] == way);
        assert(all.skip(i as int).skip(1) =~= all.skip(i + 1));
        if let Some(value) = current {
            if let Some(n) = value.as_u64() {
                return n;
            }
        }
        i += 1;
    }
    0
}

/// The keys of `members` ascend.
pub open spec fn ascending(members: Seq<(Seq<char>, JsonTree)>) -> bool {
    forall|i: int, j: int|
        0 <= i < j < members.len() ==> text::text_before(
            (#[trigger] members[i]).0,
            (#[trigger] members[j]).0,
        )
}

proof fn lemma_placed(members: Seq<(Seq<char>, JsonTree)>, member: (Seq<char>, JsonTree))
    requires
        ascending(members),
    ensures
        ascending(placed(members, member)),
        forall|i: int|
            0 <= i < placed(members, member).len() ==> {
                let item = #[trigger] placed(members, member)[i];
                item == member || members.contains(item)
            },
    decreases members.len(),
{
    let out = placed(members, member);
    if members.len() > 0 {
        let rest = members.skip(1);
        assert forall|i: int, j: int| 0 <= i < j < rest.len() implies text::text_before(
            (#[trigger] rest[i]).0,
            (#[trigger] rest[j]).0,
        ) by {
            assert(rest[i] == members[i + 1] && rest[j] == members[j + 1]);
        }
        text::lemma_order_total(member.0, members[0].0);
        if members[0].0 == member.0 {
            assert forall|i: int, j: int| 0 <= i < j < out.len() implies text::text_before(
                (#[trigger] out[i]).0,
                (#[trigger] out[j]).0,
            ) by {
                assert(text::text_before(members[i].0, members[j].0));
            }
            assert forall|i: int| 0 <= i < out.len() implies {
                let item = #[trigger] out[i];
                item == member || members.contains(item)
            } by {
                if i > 0 {
                    assert(out[i] == members[i]);
                }
            }
        } else if text::text_before(member.0, members[0].0) {
            assert forall|i: int, j: int| 0 <= i < j < out.len() implies text::text_before(
                (#[trigger] out[i]).0,
                (#[trigger] out[j]).0,
            ) by {
                if i > 0 {
                    assert(text::text_before(members[i - 1].0, members[j - 1].0));
                } else if j > 1 {
                    assert(text::text_before(members[0].0, members[j - 1].0));
                    text::lemma_order_transitive(member.0, members[0].0, members[j - 1].0);
                }
            }
            assert forall|i: int| 0 <= i < out.len() implies {
                let item = #[trigger] out[i];
                item == member || members.contains(item)
            } by {
                if i > 0 {
                    assert(out[i] == members[i - 1]);
                }
            }
        } else {
            lemma_placed(rest, member);
            let more = placed(rest, member);
            assert forall|i: int| 0 <= i < out.len() implies {
                let item = #[trigger] out[i];
                item == member || members.contains(item)
            } by {
                if i == 0 {
                    assert(out[0] == members[0]);
                } else {
                    assert(out[i] == more[i - 1]);
                    if more[i - 1] != member {
                        let k = choose|k: int| 0 <= k < rest.len() && rest[k] == more[i - 1];
                        assert(members[k + 1] == out[i]);
                    }
                }
            }
            assert forall|i: int, j: int| 0 <= i < j < out.len() implies text::text_before(
                (#[trigger] out[i]).0,
                (#[trigger] out[j]).0,
            ) by {
                assert(out[j] == more[j - 1]);
                if i > 0 {
                    assert(out[i] == more[i - 1]);
                    assert(text::text_before(more[i - 1].0, more[j - 1].0));
                } else if more[j - 1] != member {
                    let k = choose|k: int| 0 <= k < rest.len() && rest[k] == more[j - 1];
                    assert(members[k + 1] == out[j]);
                }
            }
        }
    }
}

proof fn lemma_by_key(members: Seq<(Seq<char>, JsonTree)>)
    ensures
        ascending(by_key(members)),
        forall|i: int|
            0 <= i < by_key(members).len() ==> members.contains(#[trigger] by_key(members)[i]),
    decreases members.len(),
{
    if members.len() > 0 {
        let rest = members.drop_last();
        let last = members[members.len() - 1];
        lemma_by_key(rest);
        lemma_placed(by_key(rest), last);
        let out = by_key(members);
        assert forall|i: int| 0 <= i < out.len() implies members.contains(#[trigger] out[i]) by {
            if out[i] == last {
                assert(members[members.len() - 1] == out[i]);
            } else {
                let k = choose|k: int| 0 <= k < by_key(rest).len() && by_key(rest)[k] == out[i];
                let j = choose|j: int| 0 <= j < rest.len() && rest[j] == by_key(rest)[k];
                assert(members[j] == out[i]);
            }
        }
    }
}

proof fn lemma_placed_last(members: Seq<(Seq<char>, JsonTree)>, member: (Seq<char>, JsonTree))
    requires
        ascending(members.push(member)),
    ensures
        placed(members, member) == members.push(member),
    decreases members.len(),
{
    let all = members.push(member);
    if members.len() == 0 {
        assert(all =~= seq![member]);
    } else {
        let rest = members.skip(1);
        assert(text::text_before(all[0].0, all[members.len() as int].0));
        text::lemma_order_irreflexive(member.0);
        if text::text_before(member.0, members[0].0) {
            text::lemma_order_transitive(members[0].0, member.0, members[0].0);
            text::lemma_order_irreflexive(members[0].0);
        }
        let more = rest.push(member);
        assert forall|i: int, j: int| 0 <= i < j < more.len() implies text::text_before(
            (#[trigger] more[i]).0,
            (#[trigger] more[j]).0,
        ) by {
            assert(more[i] == all[i + 1] && more[j] == all[j + 1]);
        }
        lemma_placed_last(rest, member);
        assert(seq![members[0]] + more =~= all);
    }
}

proof fn lemma_by_key_stays(members: Seq<(Seq<char>, JsonTree)>)
    requires
        ascending(members),
    ensures
        by_key(members) == members,
    decreases members.len(),
{
    if members.len() > 0 {
        let rest = members.drop_last();
        assert(rest.push(members.last()) =~= members);
        assert forall|i: int, j: int| 0 <= i < j < rest.len() implies text::text_before(
            (#[trigger] rest[i]).0,
            (#[trigger] rest[j]).0,
        ) by {
            assert(rest[i] == members[i] && rest[j] == members[j]);
        }
        lemma_by_key_stays(rest);
        lemma_placed_last(rest, members.last());
    }
}

/// Members that are in order stay in that order.
pub proof fn law_key_order_stays(tree: JsonTree)
    ensures
        sorted_tree(sorted_tree(tree)) == sorted_tree(tree),
    decreases tree,
{
    match tree {
        JsonTree::Array(items) => {
            let once = sorted_items(items);
            assert forall|i: int| 0 <= i < once.len() implies sorted_tree(#[trigger] once[i])
                == once[i] by {
                assert(once[i] == sorted_tree(items[i]));
                assert(decreases_to!(tree => items));
                assert(decreases_to!(items => items[i]));
                law_key_order_stays(items[i]);
            }
            assert(sorted_items(once) =~= once);
        },
        JsonTree::Object(members) => {
            let inner = sorted_members(members);
            let once = by_key(inner);
            assert forall|i: int| 0 <= i < inner.len() implies sorted_tree(
                (#[trigger] inner[i]).1,
            ) == inner[i].1 by {
                assert(inner[i].1 == sorted_tree(members[i].1));
                assert(decreases_to!(tree => members));
                assert(decreases_to!(members => members[i]));
                assert(decreases_to!(members[i] => members[i].1));
                law_key_order_stays(members[i].1);
            }
            lemma_by_key(inner);
            assert forall|i: int| 0 <= i < once.len() implies sorted_members(once)[i]
                == #[trigger] once[i] by {
                let k = choose|k: int| 0 <= k < inner.len() && inner[k] == once[i];
                assert(sorted_tree(inner[k].1) == inner[k].1);
            }
            assert(sorted_members(once) =~= once);
            lemma_by_key_stays(once);
        },
        _ => {},
    }
}

proof fn lemma_get_first(
    first: (Seq<char>, JsonTree),
    rest: Seq<(Seq<char>, JsonTree)>,
    key: Seq<char>,
)
    ensures
        JsonTree::Object(seq![first] + rest).get(key) == (if first.0 == key {
            Some(first.1)
        } else {
            JsonTree::Object(rest).get(key)
        }),
{
    let all = seq![first] + rest;
    assert(all.skip(1) =~= rest);
    lemma_found_place(rest, key);
}

proof fn lemma_placed_get(
    members: Seq<(Seq<char>, JsonTree)>,
    member: (Seq<char>, JsonTree),
    key: Seq<char>,
)
    ensures
        JsonTree::Object(placed(members, member)).get(key) == (if key == member.0 {
            Some(member.1)
        } else {
            JsonTree::Object(members).get(key)
        }),
    decreases members.len(),
{
    let none = Seq::<(Seq<char>, JsonTree)>::empty();
    if members.len() == 0 {
        assert(seq![member] + none =~= seq![member]);
        assert(members =~= none);
        lemma_get_first(member, none, key);
    } else {
        let rest = members.skip(1);
        assert(seq![members[0]] + rest =~= members);
        lemma_get_first(members[0], rest, key);
        lemma_get_first(member, rest, key);
        lemma_get_first(member, members, key);
        lemma_placed_get(rest, member, key);
        lemma_get_first(members[0], placed(rest, member), key);
    }
}

/// Sorting an object by key keeps what stands at each key, the last value where a key occurs
/// more than once, with the objects within it sorted too; the keys then ascend.
pub proof fn law_sorted_object(
    members: Seq<(Seq<char>, JsonTree)>,
    key: Seq<char>,
    value: JsonTree,
    other: Seq<char>,
)
    ensures
        ({
            let before = sorted_tree(JsonTree::Object(members));
            let after = sorted_tree(JsonTree::Object(members.push((key, value))));
            &&& after.get(key) == Some(sorted_tree(value))
            &&& other != key ==> after.get(other) == before.get(other)
            &&& after is Object && forall|i: int, j: int|
                0 <= i < j < after->Object_0.len() ==> text::text_before(
                    (#[trigger] after->Object_0[i]).0,
                    (#[trigger] after->Object_0[j]).0,
                )
        }),
        sorted_tree(JsonTree::Object(Seq::<(Seq<char>, JsonTree)>::empty())) == JsonTree::Object(
            Seq::<(Seq<char>, JsonTree)>::empty(),
        ),
{
    let inner = sorted_members(members);
    let more = sorted_members(members.push((key, value)));
    let member = (key, sorted_tree(value));
    assert(more =~= inner.push(member));
    assert(more.drop_last() =~= inner);
    lemma_placed_get(by_key(inner), member, key);
    lemma_placed_get(by_key(inner), member, other);
    lemma_by_key(more);
    let none = Seq::<(Seq<char>, JsonTree)>::empty();
    assert(sorted_members(none) =~= none);
}

/// Sorting a list sorts each of its items where it stands; what is neither a list nor an object
/// stays as it is.
pub proof fn law_sorted_list(items: Seq<JsonTree>, i: int, tree: JsonTree)
    ensures
        sorted_tree(JsonTree::Array(items)) matches JsonTree::Array(out) && out.len() == items.len()
            && (0 <= i < items.len() ==> out[i] == sorted_tree(items[i])),
        !(tree is Array) && !(tree is Object) ==> sorted_tree(tree) == tree,
{
}

/// A path leads from member to member; and of several paths the first that leads to a whole
/// number gives it, with nothing where none does.
pub proof fn law_first_number(
    tree: Option<JsonTree>,
    key: Seq<char>,
    rest: Seq<Seq<char>>,
    path: Seq<Seq<char>>,
    paths: Seq<Seq<Seq<char>>>,
)
    ensures
        at_path(tree, Seq::<Seq<char>>::empty()) == tree,
        tree matches Some(value) ==> at_path(tree, seq![key] + rest) == at_path(
            value.get(key),
            rest,
        ),
        at_path(None, path) is None,
        ({
            let found = at_path(tree, path);
            let number = if found is Some {
                found->0.as_u64()
            } else {
                None
            };
            &&& number is Some ==> first_number(tree, seq![path] + paths) == number->0
            &&& number is None ==> first_number(tree, seq![path] + paths) == first_number(
                tree,
                paths,
            )
        }),
        first_number(tree, Seq::<Seq<Seq<char>>>::empty()) == 0,
{
    assert((seq![key] + rest).skip(1) =~= rest);
    assert((seq![path] + paths).skip(1) =~= paths);
}

} // verus!
