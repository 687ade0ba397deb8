//! JSON values: the library's own tree, its mathematical model, and the way to and from text.
use serde_json::{Number, Value};
use vstd::prelude::*;

use crate::text;
use crate::text::{same_text, text_before};

verus! {

/// The number type of `serde_json`, carried through as it is.
#[verifier::external_type_specification]
#[verifier::external_body]
pub struct NumberDeclared(Number);

/// The value type of `serde_json`.
#[verifier::external_type_specification]
#[verifier::external_body]
pub struct ValueDeclared(Value);

/// What a JSON value is: objects are maps from keys to values.
#[verifier::ext_equal]
pub enum JsonV {
    Null,
    Bool(bool),
    Number(Number),
    Text(Seq<char>),
    Array(Seq<JsonV>),
    Object(Map<Seq<char>, JsonV>),
}

impl JsonV {
    /// The value under `key`, where this is an object that has one.
    pub open spec fn get(self, key: Seq<char>) -> Option<JsonV> {
        match self {
            JsonV::Object(m) => if m.dom().contains(key) {
                Some(m[key])
            } else {
                None
            },
            _ => None,
        }
    }

    /// The value under `key`, or null where there is none.
    pub open spec fn at(self, key: Seq<char>) -> JsonV {
        match self.get(key) {
            Some(v) => v,
            None => JsonV::Null,
        }
    }

    /// The text of a string.
    pub open spec fn text(self) -> Option<Seq<char>> {
        match self {
            JsonV::Text(t) => Some(t),
            _ => None,
        }
    }

    /// The value of a number that is an unsigned 64-bit integer.
    pub open spec fn unsigned(self) -> Option<u64> {
        match self {
            JsonV::Number(n) => number_u64(n),
            _ => None,
        }
    }

    /// The value of a boolean.
    pub open spec fn flag(self) -> Option<bool> {
        match self {
            JsonV::Bool(b) => Some(b),
            _ => None,
        }
    }

    /// The items of an array.
    pub open spec fn list(self) -> Option<Seq<JsonV>> {
        match self {
            JsonV::Array(a) => Some(a),
            _ => None,
        }
    }
}

/// A JSON value. Where an object lists a key more than once, the last entry counts; the functions
/// of this module keep the entries in the order of their keys, each key once.
#[derive(Debug, PartialEq)]
pub enum Json {
    Null,
    Bool(bool),
    Number(Number),
    Text(String),
    Array(Vec<Json>),
    Object(Vec<(String, Json)>),
}

/// What a JSON value stands for.
pub open spec fn json_view(json: Json) -> JsonV
    decreases json,
{
    match json {
        Json::Null => JsonV::Null,
        Json::Bool(b) => JsonV::Bool(b),
        Json::Number(n) => JsonV::Number(n),
        Json::Text(t) => JsonV::Text(t@),
        Json::Array(a) => JsonV::Array(array_view(a@)),
        Json::Object(entries) => JsonV::Object(entries_view(entries@)),
    }
}

/// What the items of an array stand for.
pub open spec fn array_view(items: Seq<Json>) -> Seq<JsonV>
    decreases items,
{
    if items.len() == 0 {
        Seq::empty()
    } else {
        array_view(items.drop_last()).push(json_view(items.last()))
    }
}

/// The map that the entries of an object stand for.
pub open spec fn entries_view(entries: Seq<(String, Json)>) -> Map<Seq<char>, JsonV>
    decreases entries,
{
    if entries.len() == 0 {
        Map::empty()
    } else {
        entries_view(entries.drop_last()).insert(entries.last().0@, json_view(entries.last().1))
    }
}

impl View for Json {
    type V = JsonV;

    open spec fn view(&self) -> JsonV {
        json_view(*self)
    }
}

/// An array stands for its items, one by one.
pub proof fn lemma_array_view(items: Seq<Json>)
    ensures
        array_view(items).len() == items.len(),
        forall|i: int| 0 <= i < items.len() ==> #[trigger] array_view(items)[i] == items[i]@,
    decreases items.len(),
{
    if items.len() > 0 {
        lemma_array_view(items.drop_last());
        assert forall|i: int| 0 <= i < items.len() implies #[trigger] array_view(items)[i]
            == items[i]@ by {
            if i < items.len() - 1 {
                assert(array_view(items.drop_last())[i] == items.drop_last()[i]@);
            }
        }
    }
}

/// An object has a key exactly where an entry has it, and its keys are finitely many.
pub proof fn lemma_entries_keys(entries: Seq<(String, Json)>)
    ensures
        entries_view(entries).dom().finite(),
        forall|i: int|
            0 <= i < entries.len() ==> entries_view(entries).dom().contains(
                #[trigger] entries[i].0@,
            ),
        forall|key: Seq<char>| #[trigger]
            entries_view(entries).dom().contains(key) ==> exists|i: int|
                0 <= i < entries.len() && entries[i].0@ == key,
    decreases entries.len(),
{
    if entries.len() > 0 {
        let front = entries.drop_last();
        lemma_entries_keys(front);
        assert forall|i: int| 0 <= i < entries.len() implies entries_view(entries).dom().contains(
            #[trigger] entries[i].0@,
        ) by {
            if i < entries.len() - 1 {
                assert(front[i].0@ == entries[i].0@);
            }
        }
        assert forall|key: Seq<char>| #[trigger]
            entries_view(entries).dom().contains(key) implies exists|i: int|
            0 <= i < entries.len() && entries[i].0@ == key by {
            if key == entries.last().0@ {
                assert(entries[entries.len() - 1].0@ == key);
            } else {
                assert(entries_view(front).dom().contains(key));
                let i = choose|i: int| 0 <= i < front.len() && front[i].0@ == key;
                assert(entries[i].0@ == key);
            }
        }
    }
}

/// The entry that is the last with its key gives the value under that key.
pub proof fn lemma_last_entry_counts(entries: Seq<(String, Json)>, i: int)
    requires
        0 <= i < entries.len(),
        forall|j: int| i < j < entries.len() ==> #[trigger] entries[j].0@ != entries[i].0@,
    ensures
        entries_view(entries).dom().contains(entries[i].0@),
        entries_view(entries)[entries[i].0@] == entries[i].1@,
    decreases entries.len(),
{
    if i < entries.len() - 1 {
        let front = entries.drop_last();
        assert(front[i] == entries[i]);
        assert forall|j: int| i < j < front.len() implies #[trigger] front[j].0@ != front[i].0@ by {
            assert(front[j] == entries[j]);
        }
        lemma_last_entry_counts(front, i);
        assert(entries[entries.len() - 1].0@ != entries[i].0@);
    }
}

/// Replacing the value of the last entry with a key replaces the value under that key.
pub proof fn lemma_replace_entry(entries: Seq<(String, Json)>, i: int, entry: (String, Json))
    requires
        0 <= i < entries.len(),
        entry.0@ == entries[i].0@,
        forall|j: int| i < j < entries.len() ==> #[trigger] entries[j].0@ != entries[i].0@,
    ensures
        entries_view(entries.update(i, entry)) == entries_view(entries).insert(entry.0@, entry.1@),
    decreases entries.len(),
{
    let front = entries.drop_last();
    let updated = entries.update(i, entry);
    if i == entries.len() - 1 {
        assert(updated.drop_last() == front);
        assert(entries_view(updated) == entries_view(entries).insert(entry.0@, entry.1@));
    } else {
        assert(front[i] == entries[i]);
        assert forall|j: int| i < j < front.len() implies #[trigger] front[j].0@ != front[i].0@ by {
            assert(front[j] == entries[j]);
        }
        lemma_replace_entry(front, i, entry);
        assert(updated.drop_last() == front.update(i, entry));
        assert(entries[entries.len() - 1].0@ != entries[i].0@);
        assert(entries_view(updated) == entries_view(entries).insert(entry.0@, entry.1@));
    }
}

/// Inserting an entry with a new key, anywhere, adds that key.
pub proof fn lemma_insert_entry(entries: Seq<(String, Json)>, i: int, entry: (String, Json))
    requires
        0 <= i <= entries.len(),
        forall|j: int| 0 <= j < entries.len() ==> #[trigger] entries[j].0@ != entry.0@,
    ensures
        entries_view(entries.insert(i, entry)) == entries_view(entries).insert(entry.0@, entry.1@),
    decreases entries.len(),
{
    let inserted = entries.insert(i, entry);
    if i == entries.len() {
        assert(inserted.drop_last() == entries);
    } else {
        let front = entries.drop_last();
        assert forall|j: int| 0 <= j < front.len() implies #[trigger] front[j].0@ != entry.0@ by {
            assert(front[j] == entries[j]);
        }
        lemma_insert_entry(front, i, entry);
        assert(inserted.drop_last() == front.insert(i, entry));
        assert(inserted.last() == entries.last());
        assert(entries[entries.len() - 1].0@ != entry.0@);
        assert(entries_view(inserted) == entries_view(entries).insert(entry.0@, entry.1@));
    }
}

/// The last entry with `key`, if there is one.
pub fn find_entry(entries: &Vec<(String, Json)>, key: &str) -> (index: Option<usize>)
    ensures
        match index {
            Some(i) => {
                &&& i < entries.len()
                &&& entries@[i as int].0@ == key@
                &&& forall|j: int| i < j < entries.len() ==> #[trigger] entries@[j].0@ != key@
                &&& entries_view(entries@).dom().contains(key@)
                &&& entries_view(entries@)[key@] == entries@[i as int].1@
            },
            None => {
                &&& forall|j: int| 0 <= j < entries.len() ==> #[trigger] entries@[j].0@ != key@
                &&& !entries_view(entries@).dom().contains(key@)
            },
        },
{
    let mut i = entries.len();
    while i > 0
        invariant
            i <= entries.len(),
            forall|j: int| i <= j < entries.len() ==> #[trigger] entries@[j].0@ != key@,
        decreases i,
    {
        i -= 1;
        if same_text(entries[i].0.as_str(), key) {
            proof {
                lemma_last_entry_counts(entries@, i as int);
            }
            return Some(i);
        }
    }
    proof {
        lemma_entries_keys(entries@);
    }
    None
}

/// Puts a value under a key, in place of the one that was there.
pub fn put(entries: &mut Vec<(String, Json)>, key: &str, value: Json)
    ensures
        entries_view(final(entries)@) == entries_view(old(entries)@).insert(key@, value@),
{
    match find_entry(entries, key) {
        Some(i) => {
            proof {
                lemma_replace_entry(entries@, i as int, (entries@[i as int].0, value));
            }
            let (name, _) = entries.remove(i);
            entries.insert(i, (name, value));
            assert(entries@ == old(entries)@.update(i as int, (name, value)));
        },
        None => {
            let mut i: usize = 0;
            while i < entries.len() && text_before(entries[i].0.as_str(), key)
                invariant
                    i <= entries.len(),
                    entries@ == old(entries)@,
                decreases entries.len() - i,
            {
                i += 1;
            }
            let entry = (key.to_owned(), value);
            proof {
                lemma_insert_entry(entries@, i as int, entry);
            }
            entries.insert(i, entry);
        },
    }
}

/// Puts a value at the end of an array.
pub fn add_item(items: &mut Vec<Json>, value: Json)
    ensures
        array_view(final(items)@) == array_view(old(items)@).push(value@),
{
    items.push(value);
    assert(items@.drop_last() == old(items)@);
}

impl Json {
    /// A string.
    pub fn text(value: &str) -> (json: Json)
        ensures
            json@ == JsonV::Text(value@),
    {
        Json::Text(value.to_owned())
    }

    /// An unsigned number.
    pub fn unsigned(value: u64) -> (json: Json)
        ensures
            json@ == unsigned_json(value),
            json@.unsigned() == Some(value),
    {
        Json::Number(number_from_u64(value))
    }

    /// An empty object.
    pub fn empty_object() -> (json: Json)
        ensures
            json@ == JsonV::Object(Map::empty()),
    {
        Json::Object(Vec::new())
    }

    /// The value under `key`, where this is an object that has one.
    pub fn get(&self, key: &str) -> (value: Option<&Json>)
        ensures
            match value {
                Some(v) => self@.get(key@) == Some(v@),
                None => self@.get(key@) is None,
            },
    {
        match self {
            Json::Object(entries) => match find_entry(entries, key) {
                Some(i) => Some(&entries[i].1),
                None => None,
            },
            _ => None,
        }
    }

    /// The value under `key`, or null where there is none.
    pub fn at(&self, key: &str) -> (value: &Json)
        ensures
            value@ == self@.at(key@),
    {
        match self.get(key) {
            Some(value) => value,
            None => &Json::Null,
        }
    }

    /// The text of a string.
    pub fn as_str(&self) -> (value: Option<&str>)
        ensures
            match value {
                Some(t) => self@.text() == Some(t@),
                None => self@.text() is None,
            },
    {
        match self {
            Json::Text(t) => Some(t.as_str()),
            _ => None,
        }
    }

    /// Whether this is the string `text`.
    pub fn is_text(&self, text: &str) -> (same: bool)
        ensures
            same == (self@ == JsonV::Text(text@)),
    {
        match self {
            Json::Text(t) => same_text(t.as_str(), text),
            _ => false,
        }
    }

    /// The value of a number that is an unsigned 64-bit integer.
    pub fn as_u64(&self) -> (value: Option<u64>)
        ensures
            value == self@.unsigned(),
    {
        match self {
            Json::Number(n) => number_as_u64(n),
            _ => None,
        }
    }

    /// The value of a boolean.
    pub fn as_bool(&self) -> (value: Option<bool>)
        ensures
            value == self@.flag(),
    {
        match self {
            Json::Bool(b) => Some(*b),
            _ => None,
        }
    }

    /// The items of an array.
    pub fn as_array(&self) -> (value: Option<&Vec<Json>>)
        ensures
            match value {
                Some(a) => self@.list() == Some(array_view(a@)),
                None => self@.list() is None,
            },
    {
        match self {
            Json::Array(a) => Some(a),
            _ => None,
        }
    }

    /// Whether this is an object.
    pub fn is_object(&self) -> (object: bool)
        ensures
            object == (self@ is Object),
    {
        matches!(self, Json::Object(_))
    }

    /// Whether this is a string.
    pub fn is_string(&self) -> (string: bool)
        ensures
            string == (self@ is Text),
    {
        matches!(self, Json::Text(_))
    }
}

/// Copies the items of an array.
pub fn clone_items(items: &Vec<Json>) -> (copy: Vec<Json>)
    ensures
        array_view(copy@) == array_view(items@),
    decreases items@,
{
    let mut copy: Vec<Json> = Vec::new();
    for i in 0..items.len()
        invariant
            array_view(copy@) == array_view(items@.take(i as int)),
        decreases items@, items.len() - i,
    {
        let item = items[i].clone();
        let ghost before = copy@;
        copy.push(item);
        assert(copy@.drop_last() == before);
        assert(items@.take(i + 1).drop_last() == items@.take(i as int));
    }
    assert(items@.take(items.len() as int) == items@);
    copy
}

fn clone_entries(entries: &Vec<(String, Json)>) -> (copy: Vec<(String, Json)>)
    ensures
        entries_view(copy@) == entries_view(entries@),
    decreases entries@,
{
    let mut copy: Vec<(String, Json)> = Vec::new();
    for i in 0..entries.len()
        invariant
            entries_view(copy@) == entries_view(entries@.take(i as int)),
        decreases entries@, entries.len() - i,
    {
        let key = entries[i].0.clone();
        let value = entries[i].1.clone();
        let ghost before = copy@;
        copy.push((key, value));
        assert(copy@.drop_last() == before);
        assert(entries@.take(i + 1).drop_last() == entries@.take(i as int));
    }
    assert(entries@.take(entries.len() as int) == entries@);
    copy
}

impl Clone for Json {
    fn clone(&self) -> (copy: Json)
        ensures
            copy@ == self@,
        decreases self,
    {
        match self {
            Json::Null => Json::Null,
            Json::Bool(b) => Json::Bool(*b),
            Json::Number(n) => Json::Number(clone_number(n)),
            Json::Text(t) => Json::Text(t.clone()),
            Json::Array(items) => Json::Array(clone_items(items)),
            Json::Object(entries) => Json::Object(clone_entries(entries)),
        }
    }
}

/// What `Number::as_u64` says of a number.
pub uninterp spec fn number_u64(number: Number) -> Option<u64>;

/// `Number::as_u64` gives the number where it is an unsigned 64-bit integer.
#[verifier::external_body]
fn number_as_u64(number: &Number) -> (value: Option<u64>)
    ensures
        value == number_u64(*number),
{
    number.as_u64()
}

/// The number that `Number::from` makes of an unsigned integer.
pub uninterp spec fn unsigned_number(value: u64) -> Number;

/// `Number::from` on an unsigned integer makes a number from which `as_u64` reads it back.
#[verifier::external_body]
fn number_from_u64(value: u64) -> (number: Number)
    ensures
        number == unsigned_number(value),
        number_u64(number) == Some(value),
{
    Number::from(value)
}

/// The JSON number of an unsigned integer.
pub open spec fn unsigned_json(value: u64) -> JsonV {
    JsonV::Number(unsigned_number(value))
}

/// `Number::clone` gives the same number.
#[verifier::external_body]
fn clone_number(number: &Number) -> (copy: Number)
    ensures
        copy == *number,
{
    number.clone()
}

/// The number that `Number::from` makes of a signed integer.
pub uninterp spec fn signed_number(value: i64) -> Number;

/// `Number::from` on a signed integer.
#[verifier::external_body]
pub(crate) fn number_from_i64(value: i64) -> (number: Number)
    ensures
        number == signed_number(value),
{
    Number::from(value)
}

/// What a `serde_json` value holds.
pub uninterp spec fn value_holds(value: Value) -> JsonV;

/// A `serde_json` value with its outermost layer opened.
pub enum ValueParts {
    Null,
    Bool(bool),
    Number(Number),
    Text(String),
    Array(Vec<Value>),
    Object(Vec<(String, Value)>),
}

/// What the entries of an opened object hold.
pub open spec fn pairs_view(pairs: Seq<(String, Value)>) -> Map<Seq<char>, JsonV>
    decreases pairs.len(),
{
    if pairs.len() == 0 {
        Map::empty()
    } else {
        pairs_view(pairs.drop_last()).insert(pairs.last().0@, value_holds(pairs.last().1))
    }
}

/// What an opened value holds.
pub open spec fn parts_hold(parts: ValueParts) -> JsonV {
    match parts {
        ValueParts::Null => JsonV::Null,
        ValueParts::Bool(b) => JsonV::Bool(b),
        ValueParts::Number(n) => JsonV::Number(n),
        ValueParts::Text(t) => JsonV::Text(t@),
        ValueParts::Array(a) => JsonV::Array(a@.map_values(|v: Value| value_holds(v))),
        ValueParts::Object(o) => JsonV::Object(pairs_view(o@)),
    }
}

/// No two entries have the same key.
pub open spec fn keys_distinct(pairs: Seq<(String, Value)>) -> bool {
    forall|i: int, j: int|
        0 <= i < j < pairs.len() ==> #[trigger] pairs[i].0@ != #[trigger] pairs[j].0@
}

/// The variant of a `Value` and what it carries; the map of an object as the list of its entries,
/// in which each key stands once.
#[verifier::external_body]
fn open_value(value: Value) -> (parts: ValueParts)
    ensures
        parts_hold(parts) == value_holds(value),
        parts matches ValueParts::Object(o) ==> keys_distinct(o@),
{
    match value {
        Value::Null => ValueParts::Null,
        Value::Bool(b) => ValueParts::Bool(b),
        Value::Number(n) => ValueParts::Number(n),
        Value::String(t) => ValueParts::Text(t),
        Value::Array(a) => ValueParts::Array(a),
        Value::Object(o) => ValueParts::Object(o.into_iter().collect()),
    }
}

/// The `Value` with the given variant and contents; an object's map holds the given entries, each of
/// which has a key of its own.
#[verifier::external_body]
fn close_value(parts: ValueParts) -> (value: Value)
    requires
        parts matches ValueParts::Object(o) ==> keys_distinct(o@),
    ensures
        value_holds(value) == parts_hold(parts),
{
    match parts {
        ValueParts::Null => Value::Null,
        ValueParts::Bool(b) => Value::Bool(b),
        ValueParts::Number(n) => Value::Number(n),
        ValueParts::Text(t) => Value::String(t),
        ValueParts::Array(a) => Value::Array(a),
        ValueParts::Object(o) => Value::Object(o.into_iter().collect()),
    }
}

proof fn lemma_pairs_key(pairs: Seq<(String, Value)>, i: int)
    requires
        0 <= i < pairs.len(),
        keys_distinct(pairs),
    ensures
        pairs_view(pairs).dom().finite(),
        pairs_view(pairs).dom().contains(pairs[i].0@),
        pairs_view(pairs)[pairs[i].0@] == value_holds(pairs[i].1),
    decreases pairs.len(),
{
    let front = pairs.drop_last();
    if front.len() > 0 {
        assert forall|j: int, k: int| 0 <= j < k < front.len() implies #[trigger] front[j].0@
            != #[trigger] front[k].0@ by {
            assert(front[j] == pairs[j] && front[k] == pairs[k]);
        }
        lemma_pairs_key(front, if i < front.len() { i } else { 0 });
        if i < front.len() {
            assert(front[i] == pairs[i]);
            assert(pairs[i].0@ != pairs[pairs.len() - 1].0@);
        }
    } else {
        assert(pairs_view(front) == Map::<Seq<char>, JsonV>::empty());
    }
}

fn from_values(values: Vec<Value>, Ghost(whole): Ghost<JsonV>) -> (items: Vec<Json>)
    requires
        whole == JsonV::Array(values@.map_values(|v: Value| value_holds(v))),
    ensures
        array_view(items@) == values@.map_values(|v: Value| value_holds(v)),
    decreases whole, 0nat,
{
    let ghost held = values@.map_values(|v: Value| value_holds(v));
    let mut items: Vec<Json> = Vec::new();
    for value in it: values
        invariant
            it.seq() == values@,
            held == values@.map_values(|v: Value| value_holds(v)),
            whole == JsonV::Array(held),
            array_view(items@) == held.take(it.index()),
    {
        let ghost before = items@;
        assert(value_holds(value) == held[it.index()]);
        assert(decreases_to!(whole => whole->Array_0));
        assert(decreases_to!(whole->Array_0 => whole->Array_0[it.index()]));
        let item = from_value(value);
        items.push(item);
        assert(items@.drop_last() == before);
    }
    assert(held.take(held.len() as int) == held);
    items
}

fn from_pairs(pairs: Vec<(String, Value)>, Ghost(whole): Ghost<JsonV>) -> (entries: Vec<
    (String, Json),
>)
    requires
        whole == JsonV::Object(pairs_view(pairs@)),
        keys_distinct(pairs@),
    ensures
        entries_view(entries@) == pairs_view(pairs@),
    decreases whole, 0nat,
{
    let ghost held = pairs_view(pairs@);
    let mut entries: Vec<(String, Json)> = Vec::new();
    for pair in it: pairs
        invariant
            it.seq() == pairs@,
            held == pairs_view(pairs@),
            whole == JsonV::Object(held),
            keys_distinct(pairs@),
            entries_view(entries@) == pairs_view(pairs@.take(it.index())),
    {
        let ghost before = entries@;
        let ghost i = it.index();
        proof {
            lemma_pairs_key(pairs@, i);
            assert(decreases_to!(whole => whole->Object_0));
            assert(decreases_to!(whole->Object_0 => whole->Object_0[pairs@[i].0@]));
        }
        let (key, value) = pair;
        let item = from_value(value);
        entries.push((key, item));
        assert(entries@.drop_last() == before);
        assert(pairs@.take(i + 1).drop_last() == pairs@.take(i));
    }
    assert(pairs@.take(pairs@.len() as int) == pairs@);
    entries
}

/// The library's form of a `serde_json` value.
pub fn from_value(value: Value) -> (json: Json)
    ensures
        json@ == value_holds(value),
    decreases value_holds(value), 1nat,
{
    match open_value(value) {
        ValueParts::Null => Json::Null,
        ValueParts::Bool(b) => Json::Bool(b),
        ValueParts::Number(n) => Json::Number(n),
        ValueParts::Text(t) => Json::Text(t),
        ValueParts::Array(a) => Json::Array(from_values(a, Ghost(value_holds(value)))),
        ValueParts::Object(o) => Json::Object(from_pairs(o, Ghost(value_holds(value)))),
    }
}

fn to_values(items: &Vec<Json>) -> (values: Vec<Value>)
    ensures
        values@.map_values(|v: Value| value_holds(v)) == array_view(items@),
    decreases items@,
{
    let mut values: Vec<Value> = Vec::new();
    for i in 0..items.len()
        invariant
            values@.map_values(|v: Value| value_holds(v)) == array_view(items@.take(i as int)),
        decreases items@, items.len() - i,
    {
        let ghost before = values@;
        let value = to_value(&items[i]);
        values.push(value);
        proof {
            assert(items@.take(i + 1).drop_last() == items@.take(i as int));
            assert(values@.map_values(|v: Value| value_holds(v)) == before.map_values(
                |v: Value| value_holds(v),
            ).push(value_holds(value)));
        }
    }
    assert(items@.take(items.len() as int) == items@);
    values
}

/// Whether no later entry has the key of entry `i`.
spec fn is_last(entries: Seq<(String, Json)>, i: int) -> bool {
    forall|j: int| i < j < entries.len() ==> #[trigger] entries[j].0@ != entries[i].0@
}

/// Whether one of the first `n` entries has a key that no later entry has.
spec fn is_settled(entries: Seq<(String, Json)>, n: int, key: Seq<char>) -> bool {
    exists|j: int| 0 <= j < n && is_last(entries, j) && #[trigger] entries[j].0@ == key
}

proof fn lemma_settled(entries: Seq<(String, Json)>, n: int)
    requires
        0 <= n < entries.len(),
    ensures
        forall|key: Seq<char>|
            is_settled(entries, n, key) ==> key != entries[n].0@ && #[trigger] is_settled(
                entries,
                n + 1,
                key,
            ),
{
    assert forall|key: Seq<char>| is_settled(entries, n, key) implies key != entries[n].0@
        && #[trigger] is_settled(entries, n + 1, key) by {
        let j = choose|j: int|
            0 <= j < n && is_last(entries, j) && #[trigger] entries[j].0@ == key;
        assert(entries[n].0@ != entries[j].0@);
    }
}

proof fn lemma_last_exists(entries: Seq<(String, Json)>, i: int) -> (last: int)
    requires
        0 <= i < entries.len(),
    ensures
        i <= last < entries.len(),
        is_last(entries, last),
        entries[last].0@ == entries[i].0@,
    decreases entries.len() - i,
{
    if is_last(entries, i) {
        i
    } else {
        let j = choose|j: int| i < j < entries.len() && #[trigger] entries[j].0@ == entries[i].0@;
        lemma_last_exists(entries, j)
    }
}

/// The entries as those of a `serde_json` object: of entries with one key, the last.
fn to_pairs(entries: &Vec<(String, Json)>) -> (pairs: Vec<(String, Value)>)
    ensures
        pairs_view(pairs@) == entries_view(entries@),
        keys_distinct(pairs@),
    decreases entries@,
{
    let mut pairs: Vec<(String, Value)> = Vec::new();
    for i in 0..entries.len()
        invariant
            keys_distinct(pairs@),
            forall|p: int|
                0 <= p < pairs.len() ==> is_settled(entries@, i as int, #[trigger] pairs@[p].0@),
            forall|key: Seq<char>| #[trigger]
                pairs_view(pairs@).dom().contains(key) ==> is_settled(entries@, i as int, key),
            forall|j: int|
                0 <= j < i && #[trigger] is_last(entries@, j) ==> {
                    &&& pairs_view(pairs@).dom().contains(entries@[j].0@)
                    &&& pairs_view(pairs@)[entries@[j].0@] == entries@[j].1@
                },
        decreases entries@, entries.len() - i,
    {
        let ghost before = pairs@;
        proof {
            lemma_settled(entries@, i as int);
        }
        if find_entry(entries, entries[i].0.as_str()) == Some(i) {
            let key = entries[i].0.clone();
            let value = to_value(&entries[i].1);
            pairs.push((key, value));
            proof {
                assert(pairs@.drop_last() == before);
                assert(is_last(entries@, i as int));
                assert(is_settled(entries@, i + 1, entries@[i as int].0@));
                assert forall|p: int| 0 <= p < before.len() implies #[trigger] pairs@[p].0@
                    != entries@[i as int].0@ && is_settled(entries@, i + 1, pairs@[p].0@) by {
                    assert(pairs@[p] == before[p]);
                    assert(is_settled(entries@, i + 1, before[p].0@));
                }
                assert forall|key: Seq<char>| #[trigger]
                    pairs_view(pairs@).dom().contains(key) implies is_settled(
                    entries@,
                    i + 1,
                    key,
                ) by {
                    if key != entries@[i as int].0@ {
                        assert(pairs_view(before).dom().contains(key));
                    }
                }
                assert forall|j: int| 0 <= j < i + 1 && #[trigger] is_last(entries@, j) implies {
                    &&& pairs_view(pairs@).dom().contains(entries@[j].0@)
                    &&& pairs_view(pairs@)[entries@[j].0@] == entries@[j].1@
                } by {
                    if j < i {
                        assert(entries@[i as int].0@ != entries@[j].0@);
                    }
                }
            }
        } else {
            assert(!is_last(entries@, i as int));
        }
    }
    proof {
        let made = pairs_view(pairs@);
        let wanted = entries_view(entries@);
        lemma_entries_keys(entries@);
        assert forall|key: Seq<char>| made.dom().contains(key) <==> #[trigger]
            wanted.dom().contains(key) by {
            if wanted.dom().contains(key) {
                let i = choose|i: int| 0 <= i < entries.len() && entries@[i].0@ == key;
                let last = lemma_last_exists(entries@, i);
                assert(is_last(entries@, last));
            }
        }
        assert forall|key: Seq<char>| #[trigger] wanted.dom().contains(key) implies made[key]
            == wanted[key] by {
            let i = choose|i: int| 0 <= i < entries.len() && entries@[i].0@ == key;
            let last = lemma_last_exists(entries@, i);
            lemma_last_entry_counts(entries@, last);
        }
        assert(made == wanted);
    }
    pairs
}

/// The `serde_json` form of a value of the library.
pub fn to_value(json: &Json) -> (value: Value)
    ensures
        value_holds(value) == json@,
    decreases json,
{
    close_value(
        match json {
            Json::Null => ValueParts::Null,
            Json::Bool(b) => ValueParts::Bool(*b),
            Json::Number(n) => ValueParts::Number(clone_number(n)),
            Json::Text(t) => ValueParts::Text(t.clone()),
            Json::Array(items) => ValueParts::Array(to_values(items)),
            Json::Object(entries) => ValueParts::Object(to_pairs(entries)),
        },
    )
}

/// What `serde_json::from_str` makes of a text: the value that it holds, or the text of the error.
pub uninterp spec fn json_of_text(input: Seq<char>) -> Result<JsonV, Seq<char>>;

/// `serde_json::from_str` to a `Value`; an error is handed on as the text that it displays.
#[verifier::external_body]
fn value_from_str(input: &str) -> (value: Result<Value, String>)
    ensures
        match value {
            Ok(v) => json_of_text(input@) == Ok::<JsonV, Seq<char>>(value_holds(v)),
            Err(e) => json_of_text(input@) == Err::<JsonV, Seq<char>>(e@),
        },
{
    serde_json::from_str(input).map_err(|error| error.to_string())
}

/// What `serde_json::from_slice` makes of bytes: the value that they hold, or the text of the
/// error.
pub uninterp spec fn json_of_bytes(input: Seq<u8>) -> Result<JsonV, Seq<char>>;

/// `serde_json::from_slice` to a `Value`; an error is handed on as the text that it displays.
#[verifier::external_body]
fn value_from_slice(input: &[u8]) -> (value: Result<Value, String>)
    ensures
        match value {
            Ok(v) => json_of_bytes(input@) == Ok::<JsonV, Seq<char>>(value_holds(v)),
            Err(e) => json_of_bytes(input@) == Err::<JsonV, Seq<char>>(e@),
        },
{
    serde_json::from_slice(input).map_err(|error| error.to_string())
}

/// The compact text that a `serde_json` value displays.
pub uninterp spec fn json_text(json: JsonV) -> Seq<char>;

/// `Value::to_string`: the compact JSON text of what the value holds.
#[verifier::external_body]
fn value_to_string(value: &Value) -> (shown: String)
    ensures
        shown@ == json_text(value_holds(*value)),
{
    value.to_string()
}

/// What `serde_json::to_vec` makes of a value: its bytes, or the text of the error.
pub uninterp spec fn json_bytes(json: JsonV) -> Result<Seq<u8>, Seq<char>>;

/// `serde_json::to_vec` on a `Value`; an error is handed on as the text that it displays. The
/// bytes are compact JSON, in which every line feed of a string is escaped and none stands between
/// values.
#[verifier::external_body]
fn value_to_vec(value: &Value) -> (bytes: Result<Vec<u8>, String>)
    ensures
        match bytes {
            Ok(b) => json_bytes(value_holds(*value)) == Ok::<Seq<u8>, Seq<char>>(b@)
                && !b@.contains(10u8),
            Err(e) => json_bytes(value_holds(*value)) == Err::<Seq<u8>, Seq<char>>(e@),
        },
{
    serde_json::to_vec(value).map_err(|error| error.to_string())
}

/// The compact JSON of a value, in bytes, without a line feed.
pub fn encode(json: &Json) -> (bytes: Result<Vec<u8>, String>)
    ensures
        match bytes {
            Ok(b) => json_bytes(json@) == Ok::<Seq<u8>, Seq<char>>(b@) && !b@.contains(10u8),
            Err(e) => json_bytes(json@) == Err::<Seq<u8>, Seq<char>>(e@),
        },
{
    value_to_vec(&to_value(json))
}

/// The outcome of a parse, in the model.
pub open spec fn parsed(result: Result<Json, String>) -> Result<JsonV, Seq<char>> {
    match result {
        Ok(json) => Ok(json@),
        Err(error) => Err(error@),
    }
}

/// Reads a JSON text.
pub fn parse(input: &str) -> (json: Result<Json, String>)
    ensures
        parsed(json) == json_of_text(input@),
{
    match value_from_str(input) {
        Ok(value) => Ok(from_value(value)),
        Err(error) => Err(error),
    }
}

/// Reads JSON from bytes.
pub fn parse_bytes(input: &[u8]) -> (json: Result<Json, String>)
    ensures
        parsed(json) == json_of_bytes(input@),
{
    match value_from_slice(input) {
        Ok(value) => Ok(from_value(value)),
        Err(error) => Err(error),
    }
}

/// The compact JSON text of a value.
pub fn render(json: &Json) -> (shown: String)
    ensures
        shown@ == json_text(json@),
{
    value_to_string(&to_value(json))
}

/// A value is looked up by its key: an object gives what it has under it, and everything else gives
/// nothing; texts, booleans and lists are what they hold.
pub proof fn law_values_are_looked_up(
    entries: Map<Seq<char>, JsonV>,
    key: Seq<char>,
    value: JsonV,
    items: Seq<JsonV>,
    said: Seq<char>,
    flag: bool,
)
    ensures
        JsonV::Object(entries.insert(key, value)).get(key) == Some(value),
        JsonV::Object(entries.insert(key, value)).at(key) == value,
        JsonV::Object(entries.remove(key)).get(key) is None,
        JsonV::Object(entries.remove(key)).at(key) == JsonV::Null,
        !(value is Object) ==> value.get(key) is None && value.at(key) == JsonV::Null,
        JsonV::Text(said).text() == Some(said),
        !(value is Text) ==> value.text() is None,
        JsonV::Array(items).list() == Some(items),
        !(value is Array) ==> value.list() is None,
        JsonV::Bool(flag).flag() == Some(flag),
        !(value is Bool) ==> value.flag() is None,
        !(value is Number) ==> value.unsigned() is None,
{
}

/// An array stands for its items in order, and an object for its entries, of which the last one of a
/// key counts.
pub proof fn law_values_stand_for_what_they_hold(
    items: Seq<Json>,
    item: Json,
    entries: Seq<(String, Json)>,
    key: String,
)
    ensures
        array_view(Seq::<Json>::empty()) == Seq::<JsonV>::empty(),
        array_view(items.push(item)) == array_view(items).push(item@),
        entries_view(Seq::<(String, Json)>::empty()) == Map::<Seq<char>, JsonV>::empty(),
        entries_view(entries.push((key, item))) == entries_view(entries).insert(key@, item@),
{
    assert(items.push(item).drop_last() == items);
    assert(entries.push((key, item)).drop_last() == entries);
}

} // verus!
