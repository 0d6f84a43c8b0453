//! The tree of values that a document is, and its mathematical model.
use crate::codec::{is_number_text, reads_as_number};
use vstd::prelude::*;

verus! {

/// A number of a document: an integer, held exactly, or a decimal number, held by its text.
#[derive(Debug, PartialEq, Eq)]
pub enum JsonNumber {
    PosInt(u64),
    NegInt(i64),
    Float(String),
}

/// A structured value: the tree that every document is read into, whatever its format.
/// The entries of an object keep the order in which they were added.
#[derive(Debug, PartialEq, Eq)]
pub enum JsonValue {
    Null,
    Bool(bool),
    Number(JsonNumber),
    String(String),
    Array(Vec<JsonValue>),
    Object(Vec<(String, JsonValue)>),
}

/// The kind of a value: which of the six variants it is.
#[derive(Clone, Copy, Debug, PartialEq, Eq, Structural)]
pub enum JsonKind {
    Null,
    Boolean,
    Number,
    String,
    Array,
    Object,
}

/// What a number is: an integer, or the text of a decimal number.
pub enum NumberModel {
    Int(int),
    Float(Seq<char>),
}

/// What a value is: the same tree over mathematical sequences.
pub enum Json {
    Null,
    Bool(bool),
    Number(NumberModel),
    String(Seq<char>),
    Array(Seq<Json>),
    Object(Seq<(Seq<char>, Json)>),
}

impl Json {
    /// Whether the tree is one that a document can hold: no object of it holds two entries
    /// under one key, and the text of every decimal number is one that reads as a number.
    pub open spec fn well_formed(self) -> bool
        decreases self,
    {
        match self {
            Json::Number(NumberModel::Float(text)) => is_number_text(text),
            Json::Array(items) => forall|i: int|
                0 <= i < items.len() ==> (#[trigger] items[i]).well_formed(),
            Json::Object(entries) => {
                &&& forall|i: int|
                    0 <= i < entries.len() ==> (#[trigger] entries[i]).1.well_formed()
                &&& forall|i: int, j: int|
                    0 <= i < j < entries.len() ==> (#[trigger] entries[i]).0 != (
                    #[trigger] entries[j]).0
            },
            _ => true,
        }
    }

    /// The kind of the value.
    pub open spec fn kind(self) -> JsonKind {
        match self {
            Json::Null => JsonKind::Null,
            Json::Bool(_) => JsonKind::Boolean,
            Json::Number(_) => JsonKind::Number,
            Json::String(_) => JsonKind::String,
            Json::Array(_) => JsonKind::Array,
            Json::Object(_) => JsonKind::Object,
        }
    }
}

impl JsonKind {
    /// The name under which a kind is shown.
    pub open spec fn name(self) -> Seq<char> {
        match self {
            JsonKind::Null => "Null"@,
            JsonKind::Boolean => "Boolean"@,
            JsonKind::Number => "Number"@,
            JsonKind::String => "String"@,
            JsonKind::Array => "Array"@,
            JsonKind::Object => "Object"@,
        }
    }

    /// The name under which this kind is shown.
    pub fn as_str(&self) -> (name: &'static str)
        ensures
            name@ == self.name(),
    {
        match self {
            JsonKind::Null => "Null",
            JsonKind::Boolean => "Boolean",
            JsonKind::Number => "Number",
            JsonKind::String => "String",
            JsonKind::Array => "Array",
            JsonKind::Object => "Object",
        }
    }
}

impl View for JsonNumber {
    type V = NumberModel;

    open spec fn view(&self) -> NumberModel {
        match self {
            JsonNumber::PosInt(u) => NumberModel::Int(*u as int),
            JsonNumber::NegInt(i) => NumberModel::Int(*i as int),
            JsonNumber::Float(t) => NumberModel::Float(t@),
        }
    }
}

impl JsonValue {
    /// What the value is: its tree over mathematical sequences.
    pub open spec fn model(&self) -> Json
        decreases self,
    {
        match self {
            JsonValue::Null => Json::Null,
            JsonValue::Bool(b) => Json::Bool(*b),
            JsonValue::Number(n) => Json::Number(n@),
            JsonValue::String(s) => Json::String(s@),
            JsonValue::Array(items) => Json::Array(
                Seq::new(
                    items@.len(),
                    |i: int|
                        if 0 <= i < items@.len() {
                            items@[i].model()
                        } else {
                            Json::Null
                        },
                ),
            ),
            JsonValue::Object(entries) => Json::Object(
                Seq::new(
                    entries@.len(),
                    |i: int|
                        if 0 <= i < entries@.len() {
                            (entries@[i].0@, entries@[i].1.model())
                        } else {
                            (Seq::empty(), Json::Null)
                        },
                ),
            ),
        }
    }
}

impl View for JsonValue {
    type V = Json;

    open spec fn view(&self) -> Json {
        self.model()
    }
}

/// The models of a list of values.
pub open spec fn items_view(items: Seq<JsonValue>) -> Seq<Json> {
    Seq::new(items.len(), |i: int| items[i]@)
}

/// The models of a list of entries.
pub open spec fn entries_view(entries: Seq<(String, JsonValue)>) -> Seq<(Seq<char>, Json)> {
    Seq::new(entries.len(), |i: int| (entries[i].0@, entries[i].1@))
}

/// The model of an array is the list of its items' models.
pub proof fn lemma_array_view(items: Vec<JsonValue>)
    ensures
        JsonValue::Array(items)@ == Json::Array(items_view(items@)),
{
    assert(JsonValue::Array(items)@->Array_0 =~= items_view(items@));
}

/// The model of an object is the list of its entries' models.
pub proof fn lemma_object_view(entries: Vec<(String, JsonValue)>)
    ensures
        JsonValue::Object(entries)@ == Json::Object(entries_view(entries@)),
{
    let shown = JsonValue::Object(entries)@->Object_0;
    assert(shown =~= entries_view(entries@));
}

impl Clone for JsonNumber {
    fn clone(&self) -> (copy: Self)
        ensures
            copy@ == self@,
    {
        match self {
            JsonNumber::PosInt(u) => JsonNumber::PosInt(*u),
            JsonNumber::NegInt(i) => JsonNumber::NegInt(*i),
            JsonNumber::Float(t) => JsonNumber::Float(t.clone()),
        }
    }
}

impl JsonNumber {
    /// Whether two numbers are the same number.
    pub fn same(&self, other: &JsonNumber) -> (same: bool)
        ensures
            same == (self@ == other@),
    {
        match (self, other) {
            (JsonNumber::PosInt(a), JsonNumber::PosInt(b)) => *a == *b,
            (JsonNumber::NegInt(a), JsonNumber::NegInt(b)) => *a == *b,
            (JsonNumber::PosInt(a), JsonNumber::NegInt(b)) => *b >= 0 && *a == *b as u64,
            (JsonNumber::NegInt(a), JsonNumber::PosInt(b)) => *a >= 0 && *b == *a as u64,
            (JsonNumber::Float(a), JsonNumber::Float(b)) => {
                let same = *a == *b;
                assert(same == (a@ == b@));
                same
            },
            _ => false,
        }
    }
}

impl Clone for JsonValue {
    #[verifier::loop_isolation(false)]
    fn clone(&self) -> (copy: Self)
        ensures
            copy@ == self@,
        decreases self,
    {
        match self {
            JsonValue::Null => JsonValue::Null,
            JsonValue::Bool(b) => JsonValue::Bool(*b),
            JsonValue::Number(n) => JsonValue::Number(n.clone()),
            JsonValue::String(s) => JsonValue::String(s.clone()),
            JsonValue::Array(items) => {
                let mut copies: Vec<JsonValue> = Vec::new();
                let mut i: usize = 0;
                while i < items.len()
                    invariant
                        i <= items.len(),
                        copies.len() == i,
                        forall|j: int| 0 <= j < i ==> copies@[j]@ == items@[j]@,
                    decreases items.len() - i,
                {
                    copies.push(items[i].clone());
                    i += 1;
                }
                proof {
                    lemma_array_view(*items);
                    lemma_array_view(copies);
                    assert(items_view(copies@) =~= items_view(items@));
                }
                JsonValue::Array(copies)
            },
            JsonValue::Object(entries) => {
                let mut copies: Vec<(String, JsonValue)> = Vec::new();
                let mut i: usize = 0;
                while i < entries.len()
                    invariant
                        i <= entries.len(),
                        copies.len() == i,
                        forall|j: int|
                            0 <= j < i ==> copies@[j].0@ == entries@[j].0@ && copies@[j].1@
                                == entries@[j].1@,
                    decreases entries.len() - i,
                {
                    copies.push((entries[i].0.clone(), entries[i].1.clone()));
                    i += 1;
                }
                proof {
                    lemma_object_view(*entries);
                    lemma_object_view(copies);
                    assert(entries_view(copies@) =~= entries_view(entries@));
                }
                JsonValue::Object(copies)
            },
        }
    }
}

impl JsonValue {
    /// The kind of the value.
    pub fn kind(&self) -> (kind: JsonKind)
        ensures
            kind == self@.kind(),
    {
        match self {
            JsonValue::Null => JsonKind::Null,
            JsonValue::Bool(_) => JsonKind::Boolean,
            JsonValue::Number(_) => JsonKind::Number,
            JsonValue::String(_) => JsonKind::String,
            JsonValue::Array(_) => JsonKind::Array,
            JsonValue::Object(_) => JsonKind::Object,
        }
    }

    /// Whether the tree is one that a document can hold: no object of it holds two entries
    /// under one key, and the text of every decimal number reads as a number.
    #[verifier::loop_isolation(false)]
    pub fn is_well_formed(&self) -> (sound: bool)
        ensures
            sound == self@.well_formed(),
        decreases self,
    {
        match self {
            JsonValue::Number(JsonNumber::Float(text)) => reads_as_number(text.as_str()),
            JsonValue::Array(items) => {
                proof {
                    lemma_array_view(*items);
                }
                let mut i: usize = 0;
                while i < items.len()
                    invariant
                        i <= items.len(),
                        forall|k: int| 0 <= k < i ==> (#[trigger] items_view(items@)[k]).well_formed(),
                    decreases items.len() - i,
                {
                    if !items[i].is_well_formed() {
                        assert(items_view(items@)[i as int] == items@[i as int]@);
                        assert(!(self@->Array_0[i as int]).well_formed());
                        return false;
                    }
                    i += 1;
                }
                true
            },
            JsonValue::Object(entries) => {
                proof {
                    lemma_object_view(*entries);
                }
                let ghost shown = entries_view(entries@);
                let mut i: usize = 0;
                while i < entries.len()
                    invariant
                        i <= entries.len(),
                        forall|k: int| 0 <= k < i ==> (#[trigger] shown[k]).1.well_formed(),
                        forall|a: int, b: int|
                            0 <= a < b < i ==> (#[trigger] shown[a]).0 != (#[trigger] shown[b]).0,
                    decreases entries.len() - i,
                {
                    if !entries[i].1.is_well_formed() {
                        assert(shown[i as int].1 == entries@[i as int].1@);
                        assert(!(self@->Object_0[i as int]).1.well_formed());
                        return false;
                    }
                    let mut j: usize = 0;
                    while j < i
                        invariant
                            j <= i,
                            i < entries.len(),
                            forall|a: int| 0 <= a < j ==> (#[trigger] shown[a]).0 != shown[i as int].0,
                        decreases i - j,
                    {
                        let twice = entries[j].0 == entries[i].0;
                        assert(twice == (shown[j as int].0 == shown[i as int].0));
                        if twice {
                            assert((self@->Object_0[j as int]).0 == (self@->Object_0[i as int]).0);
                            return false;
                        }
                        j += 1;
                    }
                    i += 1;
                }
                true
            },
            _ => true,
        }
    }

    /// Whether two values are structurally equal: the same tree, item by item and entry by
    /// entry.
    #[verifier::loop_isolation(false)]
    pub fn same(&self, other: &JsonValue) -> (same: bool)
        ensures
            same == (self@ == other@),
        decreases self,
    {
        match (self, other) {
            (JsonValue::Null, JsonValue::Null) => true,
            (JsonValue::Bool(a), JsonValue::Bool(b)) => *a == *b,
            (JsonValue::Number(a), JsonValue::Number(b)) => a.same(b),
            (JsonValue::String(a), JsonValue::String(b)) => {
                let same = *a == *b;
                assert(same == (a@ == b@));
                same
            },
            (JsonValue::Array(a), JsonValue::Array(b)) => {
                proof {
                    lemma_array_view(*a);
                    lemma_array_view(*b);
                }
                if a.len() != b.len() {
                    assert(items_view(a@).len() != items_view(b@).len());
                    return false;
                }
                let mut i: usize = 0;
                while i < a.len()
                    invariant
                        i <= a.len(),
                        a.len() == b.len(),
                        forall|j: int| 0 <= j < i ==> a@[j]@ == b@[j]@,
                    decreases a.len() - i,
                {
                    if !a[i].same(&b[i]) {
                        assert(items_view(a@)[i as int] != items_view(b@)[i as int]);
                        return false;
                    }
                    i += 1;
                }
                assert(items_view(a@) =~= items_view(b@));
                true
            },
            (JsonValue::Object(a), JsonValue::Object(b)) => {
                proof {
                    lemma_object_view(*a);
                    lemma_object_view(*b);
                }
                if a.len() != b.len() {
                    assert(entries_view(a@).len() != entries_view(b@).len());
                    return false;
                }
                let mut i: usize = 0;
                while i < a.len()
                    invariant
                        i <= a.len(),
                        a.len() == b.len(),
                        forall|j: int|
                            0 <= j < i ==> a@[j].0@ == b@[j].0@ && a@[j].1@ == b@[j].1@,
                    decreases a.len() - i,
                {
                    let same_key = a[i].0 == b[i].0;
                    assert(same_key == (a@[i as int].0@ == b@[i as int].0@));
                    if !same_key || !a[i].1.same(&b[i].1) {
                        assert(entries_view(a@)[i as int] != entries_view(b@)[i as int]);
                        return false;
                    }
                    i += 1;
                }
                assert(entries_view(a@) =~= entries_view(b@));
                true
            },
            _ => false,
        }
    }
}

/// The name of a value's kind.
pub fn get_json_type(value: &JsonValue) -> (name: &'static str)
    ensures
        name@ == value@.kind().name(),
{
    value.kind().as_str()
}

} // verus!
