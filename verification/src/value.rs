//! JSON documents as plain data, and the ordered key/value lists that JSON
//! objects are made of.

use vstd::prelude::*;

verus! {

/// The mathematical model of a JSON document.
///
/// A number is its literal text, a string the characters it holds, and an
/// object the list of its entries in insertion order.
pub enum Json {
    Null,
    Bool(bool),
    Number(Seq<char>),
    String(Seq<char>),
    Array(Seq<Json>),
    Object(Seq<(Seq<char>, Json)>),
}

/// A JSON document.
///
/// A number carries its literal text, which is passed through unchanged. An
/// object keeps its entries in insertion order; see [`Value::wf`] for the
/// invariant that its keys are distinct.
#[derive(Debug, PartialEq, Eq)]
pub enum Value {
    Null,
    Bool(bool),
    Number(String),
    String(String),
    Array(Vec<Value>),
    Object(Vec<(String, Value)>),
}

impl View for Value {
    type V = Json;

    /// The model of the document. The bounds on `i` keep the definition
    /// within the parts of `self`; see `lemma_array_view` and
    /// `lemma_object_view` for what the two lists are.
    open spec fn view(&self) -> Json
        decreases self,
    {
        match self {
            Value::Null => Json::Null,
            Value::Bool(b) => Json::Bool(*b),
            Value::Number(text) => Json::Number(text@),
            Value::String(text) => Json::String(text@),
            Value::Array(items) => Json::Array(
                Seq::new(
                    items.len() as nat,
                    |i: int|
                        if 0 <= i < items.len() {
                            items[i].view()
                        } else {
                            Json::Null
                        },
                ),
            ),
            Value::Object(entries) => Json::Object(
                Seq::new(
                    entries.len() as nat,
                    |i: int|
                        (
                            entries[i].0@,
                            if 0 <= i < entries.len() {
                                entries[i].1.view()
                            } else {
                                Json::Null
                            },
                        ),
                ),
            ),
        }
    }
}

/// The model of a list of documents.
pub open spec fn items_view(items: Seq<Value>) -> Seq<Json> {
    Seq::new(items.len(), |i: int| items[i]@)
}

/// The model of a list of object entries.
pub open spec fn entries_view(entries: Seq<(String, Value)>) -> Seq<(Seq<char>, Json)> {
    Seq::new(entries.len(), |i: int| (entries[i].0@, entries[i].1@))
}

/// The view of an array is the array of its items' views.
pub proof fn lemma_array_view(items: Vec<Value>)
    ensures
        Value::Array(items)@ == Json::Array(items_view(items@)),
{
    assert(Value::Array(items)@->Array_0 =~= items_view(items@));
}

/// The view of an object is the list of its entries' views.
pub proof fn lemma_object_view(entries: Vec<(String, Value)>)
    ensures
        Value::Object(entries)@ == Json::Object(entries_view(entries@)),
{
    assert(Value::Object(entries)@->Object_0 =~= entries_view(entries@));
}

/// The index of the first entry of `entries` whose key is `key`, or the
/// length of `entries` where no entry has that key.
pub open spec fn position(entries: Seq<(Seq<char>, Json)>, key: Seq<char>) -> int
    decreases entries.len(),
{
    if entries.len() == 0 {
        0
    } else if entries[0].0 == key {
        0
    } else {
        1 + position(entries.skip(1), key)
    }
}

/// The value stored under `key`, if any.
pub open spec fn lookup(entries: Seq<(Seq<char>, Json)>, key: Seq<char>) -> Option<Json> {
    let at = position(entries, key);
    if at < entries.len() {
        Some(entries[at].1)
    } else {
        None
    }
}

/// The entries after `key` is set to `value`: an entry that already has the
/// key keeps its place and takes the new value, and a new key goes to the end.
pub open spec fn inserted(
    entries: Seq<(Seq<char>, Json)>,
    key: Seq<char>,
    value: Json,
) -> Seq<(Seq<char>, Json)> {
    let at = position(entries, key);
    if at < entries.len() {
        entries.update(at, (key, value))
    } else {
        entries.push((key, value))
    }
}

/// No two entries share a key.
pub open spec fn distinct_keys(entries: Seq<(Seq<char>, Json)>) -> bool {
    forall|i: int, j: int|
        0 <= i < j < entries.len() ==> (#[trigger] entries[i]).0 != (#[trigger] entries[j]).0
}

/// `position` finds the first entry with the key: it lies within the list or
/// at its end, no entry before it has the key, and the entry at it does.
pub proof fn lemma_position(entries: Seq<(Seq<char>, Json)>, key: Seq<char>)
    ensures
        0 <= position(entries, key) <= entries.len(),
        forall|i: int| 0 <= i < position(entries, key) ==> (#[trigger] entries[i]).0 != key,
        position(entries, key) < entries.len() ==> entries[position(entries, key)].0 == key,
    decreases entries.len(),
{
    if entries.len() != 0 && entries[0].0 != key {
        let rest = entries.skip(1);
        lemma_position(rest, key);
        assert forall|i: int| 0 <= i < position(entries, key) implies (#[trigger] entries[i]).0
            != key by {
            if i > 0 {
                assert(entries[i] == rest[i - 1]);
            }
        }
    }
}

/// Setting a key stores the value under the key and leaves the value under
/// every other key as it was.
pub proof fn lemma_inserted_lookup(
    entries: Seq<(Seq<char>, Json)>,
    key: Seq<char>,
    value: Json,
    other: Seq<char>,
)
    ensures
        lookup(inserted(entries, key, value), key) == Some(value),
        other != key ==> lookup(inserted(entries, key, value), other) == lookup(entries, other),
{
    let after = inserted(entries, key, value);
    lemma_position(entries, key);
    lemma_position(entries, other);
    lemma_position(after, key);
    lemma_position(after, other);
    assert(after[position(entries, key)].0 == key);
    if other != key && position(entries, other) < entries.len() {
        assert(after[position(entries, other)].0 == other);
    }
}

/// Setting a key in a list of distinct keys leaves the keys distinct.
pub proof fn lemma_inserted_distinct(
    entries: Seq<(Seq<char>, Json)>,
    key: Seq<char>,
    value: Json,
)
    requires
        distinct_keys(entries),
    ensures
        distinct_keys(inserted(entries, key, value)),
{
    lemma_position(entries, key);
}

impl Json {
    /// Every object in the document, at any depth, has distinct keys.
    pub open spec fn wf(self) -> bool
        decreases self,
    {
        match self {
            Json::Array(items) => forall|i: int|
                0 <= i < items.len() ==> (#[trigger] items[i]).wf(),
            Json::Object(entries) => {
                &&& distinct_keys(entries)
                &&& forall|i: int| 0 <= i < entries.len() ==> (#[trigger] entries[i]).1.wf()
            },
            _ => true,
        }
    }
}

impl Clone for Value {
    /// A deep copy: a document with the same model.
    fn clone(&self) -> (copy: Self)
        ensures
            copy@ == self@,
        decreases self,
    {
        match self {
            Value::Null => Value::Null,
            Value::Bool(b) => Value::Bool(*b),
            Value::Number(text) => Value::Number(text.clone()),
            Value::String(text) => Value::String(text.clone()),
            Value::Array(items) => {
                let mut out: Vec<Value> = Vec::new();
                let mut i: usize = 0;
                while i < items.len()
                    invariant
                        i <= items.len(),
                        out.len() == i,
                        self->Array_0 == *items,
                        self is Array,
                        forall|k: int| 0 <= k < i ==> out[k]@ == items[k]@,
                    decreases items.len() - i,
                {
                    proof {
                        vstd::std_specs::vec::axiom_vec_index_decreases(*items, i as int);
                    }
                    let item = items[i].clone();
                    out.push(item);
                    i += 1;
                }
                proof {
                    lemma_array_view(out);
                    lemma_array_view(*items);
                    assert(items_view(out@) =~= items_view(items@));
                }
                Value::Array(out)
            },
            Value::Object(entries) => {
                let mut out: Vec<(String, Value)> = Vec::new();
                let mut i: usize = 0;
                while i < entries.len()
                    invariant
                        i <= entries.len(),
                        out.len() == i,
                        self->Object_0 == *entries,
                        self is Object,
                        forall|k: int|
                            0 <= k < i ==> out[k].0@ == entries[k].0@ && out[k].1@ == entries[k].1@,
                    decreases entries.len() - i,
                {
                    proof {
                        vstd::std_specs::vec::axiom_vec_index_decreases(*entries, i as int);
                    }
                    let key = entries[i].0.clone();
                    let value = entries[i].1.clone();
                    out.push((key, value));
                    i += 1;
                }
                proof {
                    lemma_object_view(out);
                    lemma_object_view(*entries);
                    assert(entries_view(out@) =~= entries_view(entries@));
                }
                Value::Object(out)
            },
        }
    }
}

impl Value {
    /// Every object in the document, at any depth, has distinct keys.
    pub open spec fn wf(&self) -> bool {
        self@.wf()
    }
}

/// The index of the first entry whose key is `key`, or the number of entries
/// where none has it.
pub fn find_entry(entries: &Vec<(String, Value)>, key: &String) -> (at: usize)
    ensures
        at == position(entries_view(entries@), key@),
{
    let ghost model = entries_view(entries@);
    let mut i: usize = 0;
    assert(model.skip(0) =~= model);
    while i < entries.len()
        invariant
            i <= entries.len(),
            model == entries_view(entries@),
            position(model, key@) == i + position(model.skip(i as int), key@),
        decreases entries.len() - i,
    {
        proof {
            assert(model.skip(i as int).skip(1) =~= model.skip(i + 1));
        }
        if entries[i].0 == *key {
            return i;
        }
        i += 1;
    }
    i
}

/// Sets `key` to `value`: an entry that already has the key keeps its place
/// and takes the new value, and a new key goes to the end.
pub fn insert_entry(entries: &mut Vec<(String, Value)>, key: String, value: Value)
    ensures
        entries_view(final(entries)@) == inserted(entries_view(old(entries)@), key@, value@),
{
    let at = find_entry(entries, &key);
    proof {
        lemma_position(entries_view(entries@), key@);
    }
    if at < entries.len() {
        entries[at] = (key, value);
    } else {
        entries.push((key, value));
    }
}

} // verus!
