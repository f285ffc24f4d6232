//! Structured payload values: the map/array/scalar trees that messages and
//! state entries carry, together with their mathematical model.

use vstd::prelude::*;

use crate::text::str_eq;

verus! {

/// The mathematical model of a payload value.
///
/// Objects are modelled as ordered key/value pair sequences, which keeps the
/// model faithful to the executable representation.
#[verifier::ext_equal]
pub enum ValModel {
    Null,
    Bool(bool),
    Int(i64),
    Str(Seq<char>),
    Arr(Seq<ValModel>),
    Obj(Seq<(Seq<char>, ValModel)>),
}

/// First-match lookup of `key` among object `pairs`.
pub open spec fn obj_lookup(pairs: Seq<(Seq<char>, ValModel)>, key: Seq<char>) -> Option<ValModel>
    decreases pairs.len(),
{
    if pairs.len() == 0 {
        None
    } else if pairs[0].0 == key {
        Some(pairs[0].1)
    } else {
        obj_lookup(pairs.skip(1), key)
    }
}

impl ValModel {
    /// Field lookup: `Some` only on objects that carry the key.
    pub open spec fn get_field(self, key: Seq<char>) -> Option<ValModel> {
        match self {
            ValModel::Obj(pairs) => obj_lookup(pairs, key),
            _ => None,
        }
    }

    /// The characters of a string value.
    pub open spec fn as_text(self) -> Option<Seq<char>> {
        match self {
            ValModel::Str(s) => Some(s),
            _ => None,
        }
    }

    /// The elements of an array value.
    pub open spec fn as_items(self) -> Option<Seq<ValModel>> {
        match self {
            ValModel::Arr(items) => Some(items),
            _ => None,
        }
    }

    /// The pairs of an object value.
    pub open spec fn as_pairs(self) -> Option<Seq<(Seq<char>, ValModel)>> {
        match self {
            ValModel::Obj(pairs) => Some(pairs),
            _ => None,
        }
    }

    /// The number of data items a payload field stands for: the length of an
    /// array, and one for any other value.
    pub open spec fn item_count(self) -> nat {
        match self {
            ValModel::Arr(items) => items.len(),
            _ => 1,
        }
    }
}

/// A structured payload value.
#[derive(Debug, PartialEq)]
pub enum Value {
    Null,
    Bool(bool),
    Int(i64),
    Str(String),
    Arr(Vec<Value>),
    Obj(Vec<(String, Value)>),
}

/// The model of one payload value.
pub open spec fn value_model(v: Value) -> ValModel
    decreases v,
{
    match v {
        Value::Null => ValModel::Null,
        Value::Bool(b) => ValModel::Bool(b),
        Value::Int(i) => ValModel::Int(i),
        Value::Str(s) => ValModel::Str(s@),
        Value::Arr(items) => ValModel::Arr(arr_model(items@)),
        Value::Obj(pairs) => ValModel::Obj(obj_model(pairs@)),
    }
}

/// The models of the elements of an array.
pub open spec fn arr_model(items: Seq<Value>) -> Seq<ValModel>
    decreases items,
{
    if items.len() == 0 {
        Seq::empty()
    } else {
        seq![value_model(items[0])] + arr_model(items.subrange(1, items.len() as int))
    }
}

/// The models of the pairs of an object.
pub open spec fn obj_model(pairs: Seq<(String, Value)>) -> Seq<(Seq<char>, ValModel)>
    decreases pairs,
{
    if pairs.len() == 0 {
        Seq::empty()
    } else {
        seq![(pairs[0].0@, value_model(pairs[0].1))] + obj_model(
            pairs.subrange(1, pairs.len() as int),
        )
    }
}

/// `arr_model` maps the element models pointwise.
pub proof fn lemma_arr_model(items: Seq<Value>)
    ensures
        arr_model(items).len() == items.len(),
        forall|i: int| 0 <= i < items.len() ==> #[trigger] arr_model(items)[i] == value_model(
            items[i],
        ),
    decreases items.len(),
{
    if items.len() > 0 {
        lemma_arr_model(items.subrange(1, items.len() as int));
        assert forall|i: int| 0 <= i < items.len() implies #[trigger] arr_model(items)[i]
            == value_model(items[i]) by {
            if i > 0 {
                assert(items.subrange(1, items.len() as int)[i - 1] == items[i]);
            }
        }
    }
}

/// `obj_model` maps the pair models pointwise.
pub proof fn lemma_obj_model(pairs: Seq<(String, Value)>)
    ensures
        obj_model(pairs).len() == pairs.len(),
        forall|i: int| 0 <= i < pairs.len() ==> #[trigger] obj_model(pairs)[i] == (
            pairs[i].0@,
            value_model(pairs[i].1),
        ),
    decreases pairs.len(),
{
    if pairs.len() > 0 {
        lemma_obj_model(pairs.subrange(1, pairs.len() as int));
        assert forall|i: int| 0 <= i < pairs.len() implies #[trigger] obj_model(pairs)[i] == (
            pairs[i].0@,
            value_model(pairs[i].1),
        ) by {
            if i > 0 {
                assert(pairs.subrange(1, pairs.len() as int)[i - 1] == pairs[i]);
            }
        }
    }
}

impl View for Value {
    type V = ValModel;

    open spec fn view(&self) -> ValModel {
        value_model(*self)
    }
}

impl Value {
    /// A structural copy whose model equals this value's model.
    #[verifier::loop_isolation(false)]
    pub fn deep_copy(&self) -> (r: Value)
        ensures
            r@ == self@,
        decreases *self,
    {
        match self {
            Value::Null => Value::Null,
            Value::Bool(b) => Value::Bool(*b),
            Value::Int(i) => Value::Int(*i),
            Value::Str(s) => Value::Str(s.clone()),
            Value::Arr(items) => {
                let mut out: Vec<Value> = Vec::new();
                let mut idx: usize = 0;
                while idx < items.len()
                    invariant
                        idx <= items@.len(),
                        out@.len() == idx,
                        forall|j: int| 0 <= j < idx ==> #[trigger] out@[j]@ == items@[j]@,
                    decreases items@.len() - idx,
                {
                    proof {
                        assert(decreases_to!(*self => *items));
                        assert(decreases_to!(*items => items@));
                        assert(decreases_to!(items@ => items@[idx as int]));
                    }
                    let copied = items[idx].deep_copy();
                    out.push(copied);
                    idx += 1;
                }
                let r = Value::Arr(out);
                proof {
                    lemma_arr_model(out@);
                    lemma_arr_model(items@);
                    assert forall|j: int|
                        0 <= j < out@.len() implies #[trigger] arr_model(out@)[j] == arr_model(
                        items@,
                    )[j] by {
                        assert(out@[j]@ == items@[j]@);
                    }
                    assert(arr_model(out@) =~= arr_model(items@));
                }
                r
            },
            Value::Obj(pairs) => {
                let mut out: Vec<(String, Value)> = Vec::new();
                let mut idx: usize = 0;
                while idx < pairs.len()
                    invariant
                        idx <= pairs@.len(),
                        out@.len() == idx,
                        forall|j: int| 0 <= j < idx ==> (#[trigger] out@[j]).0@ == pairs@[j].0@,
                        forall|j: int| 0 <= j < idx ==> (#[trigger] out@[j]).1@ == pairs@[j].1@,
                    decreases pairs@.len() - idx,
                {
                    proof {
                        assert(decreases_to!(*self => *pairs));
                        assert(decreases_to!(*pairs => pairs@));
                        assert(decreases_to!(pairs@ => pairs@[idx as int]));
                        assert(decreases_to!(pairs@[idx as int] => pairs@[idx as int].1));
                    }
                    let key = pairs[idx].0.clone();
                    let copied = pairs[idx].1.deep_copy();
                    out.push((key, copied));
                    idx += 1;
                }
                let r = Value::Obj(out);
                proof {
                    lemma_obj_model(out@);
                    lemma_obj_model(pairs@);
                    assert forall|j: int|
                        0 <= j < out@.len() implies #[trigger] obj_model(out@)[j] == obj_model(
                        pairs@,
                    )[j] by {
                        assert((out@[j]).0@ == pairs@[j].0@);
                        assert((out@[j]).1@ == pairs@[j].1@);
                    }
                    assert(obj_model(out@) =~= obj_model(pairs@));
                }
                r
            },
        }
    }

    /// Field lookup on object values; `None` on any other shape.
    #[verifier::loop_isolation(false)]
    pub fn get(&self, key: &str) -> (r: Option<&Value>)
        ensures
            match r {
                Some(v) => self@.get_field(key@) == Some(v@),
                None => self@.get_field(key@) is None,
            },
    {
        match self {
            Value::Obj(pairs) => {
                proof {
                    lemma_obj_model(pairs@);
                }
                let ghost model_pairs = obj_model(pairs@);
                let mut i: usize = 0;
                while i < pairs.len()
                    invariant
                        model_pairs == obj_model(pairs@),
                        model_pairs.len() == pairs@.len(),
                        forall|j: int|
                            0 <= j < pairs@.len() ==> #[trigger] model_pairs[j] == (
                            pairs@[j].0@,
                            value_model(pairs@[j].1),
                            ),
                        i <= pairs@.len(),
                        forall|j: int| 0 <= j < i ==> #[trigger] model_pairs[j].0 != key@,
                    decreases pairs@.len() - i,
                {
                    if str_eq(pairs[i].0.as_str(), key) {
                        proof {
                            assert(self@ == ValModel::Obj(model_pairs));
                            assert(model_pairs[i as int].0 == key@);
                            lemma_obj_lookup_at(model_pairs, key@, i as int);
                        }
                        return Some(&pairs[i].1);
                    }
                    i += 1;
                }
                proof {
                    lemma_obj_lookup_none(model_pairs, key@);
                }
                None
            },
            _ => None,
        }
    }

    /// The characters of a string value, as a borrowed slice.
    pub fn as_str(&self) -> (r: Option<&str>)
        ensures
            match r {
                Some(s) => self@.as_text() == Some(s@),
                None => self@.as_text() is None,
            },
    {
        match self {
            Value::Str(s) => Some(s.as_str()),
            _ => None,
        }
    }

    /// The elements of an array value, as a borrowed vector.
    pub fn as_array(&self) -> (r: Option<&Vec<Value>>)
        ensures
            match r {
                Some(items) => {
                    &&& self@.as_items() is Some
                    &&& items@.len() == self@.as_items()->0.len()
                    &&& forall|i: int|
                        0 <= i < items@.len() ==> #[trigger] items@[i]@ == self@.as_items()->0[i]
                },
                None => self@.as_items() is None,
            },
    {
        match self {
            Value::Arr(items) => {
                proof {
                    lemma_arr_model(items@);
                }
                Some(items)
            },
            _ => None,
        }
    }

    /// The pairs of an object value, as a borrowed vector.
    pub fn as_object(&self) -> (r: Option<&Vec<(String, Value)>>)
        ensures
            match r {
                Some(pairs) => {
                    &&& self@.as_pairs() is Some
                    &&& pairs@.len() == self@.as_pairs()->0.len()
                    &&& forall|i: int|
                        0 <= i < pairs@.len() ==> #[trigger] self@.as_pairs()->0[i] == (
                        pairs@[i].0@,
                        pairs@[i].1@,
                        )
                },
                None => self@.as_pairs() is None,
            },
    {
        match self {
            Value::Obj(pairs) => {
                proof {
                    lemma_obj_model(pairs@);
                }
                Some(pairs)
            },
            _ => None,
        }
    }

    /// Wraps string characters as a value.
    pub fn of_string(s: String) -> (r: Value)
        ensures
            r@ == ValModel::Str(s@),
    {
        Value::Str(s)
    }
}

proof fn lemma_obj_lookup_at(pairs: Seq<(Seq<char>, ValModel)>, key: Seq<char>, i: int)
    requires
        0 <= i < pairs.len(),
        forall|j: int| 0 <= j < i ==> #[trigger] pairs[j].0 != key,
        pairs[i].0 == key,
    ensures
        obj_lookup(pairs, key) == Some(pairs[i].1),
    decreases i,
{
    if i == 0 {
    } else {
        assert(pairs.skip(1)[i - 1] == pairs[i]);
        assert(forall|j: int| 0 <= j < i - 1 ==> #[trigger] pairs.skip(1)[j].0 == pairs[j + 1].0);
        lemma_obj_lookup_at(pairs.skip(1), key, i - 1);
    }
}

proof fn lemma_obj_lookup_none(pairs: Seq<(Seq<char>, ValModel)>, key: Seq<char>)
    requires
        forall|j: int| 0 <= j < pairs.len() ==> #[trigger] pairs[j].0 != key,
    ensures
        obj_lookup(pairs, key) is None,
    decreases pairs.len(),
{
    if pairs.len() == 0 {
    } else {
        assert(forall|j: int|
            0 <= j < pairs.skip(1).len() ==> #[trigger] pairs.skip(1)[j].0 == pairs[j + 1].0);
        lemma_obj_lookup_none(pairs.skip(1), key);
    }
}

} // verus!
