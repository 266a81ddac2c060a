//! The JSON value handled by the library, and its mathematical model.

use vstd::prelude::*;

verus! {

/// Declares `serde_json::Number`, so that a value can hold a JSON number as
/// the parser gave it. The merge only carries numbers; it never reads one.
#[verifier::external_type_specification]
#[verifier::external_body]
pub struct ExNumber(serde_json::Number);

/// A JSON document. Object entries keep their insertion order; a well-formed
/// object holds each key once.
#[derive(Debug, PartialEq)]
pub enum Value {
    Null,
    Bool(bool),
    Number(serde_json::Number),
    String(String),
    Array(Vec<Value>),
    Object(Vec<(String, Value)>),
}

/// The mathematical model of a [`Value`].
pub enum ValueModel {
    Null,
    Bool(bool),
    Number(serde_json::Number),
    Str(Seq<char>),
    Array(Seq<ValueModel>),
    Object(Seq<(Seq<char>, ValueModel)>),
}

/// The models of a sequence of values, element by element.
pub open spec fn model_items(s: Seq<Value>) -> Seq<ValueModel>
    decreases s,
{
    if s.len() == 0 {
        Seq::empty()
    } else {
        model_items(s.drop_last()).push(s.last().view())
    }
}

/// The models of a sequence of object entries, entry by entry.
pub open spec fn model_entries(s: Seq<(String, Value)>) -> Seq<(Seq<char>, ValueModel)>
    decreases s,
{
    if s.len() == 0 {
        Seq::empty()
    } else {
        model_entries(s.drop_last()).push((s.last().0@, s.last().1.view()))
    }
}

impl View for Value {
    type V = ValueModel;

    open spec fn view(&self) -> ValueModel
        decreases self,
    {
        match self {
            Value::Null => ValueModel::Null,
            Value::Bool(b) => ValueModel::Bool(*b),
            Value::Number(n) => ValueModel::Number(*n),
            Value::String(s) => ValueModel::Str(s@),
            Value::Array(v) => ValueModel::Array(model_items(v@)),
            Value::Object(v) => ValueModel::Object(model_entries(v@)),
        }
    }
}

/// The model of a sequence of values has one element per value, in order.
pub proof fn lemma_model_items(s: Seq<Value>)
    ensures
        model_items(s).len() == s.len(),
        forall|i: int| 0 <= i < s.len() ==> #[trigger] model_items(s)[i] == s[i]@,
    decreases s.len(),
{
    if s.len() == 0 {
        assert(model_items(s) == Seq::<ValueModel>::empty());
    } else {
        lemma_model_items(s.drop_last());
        assert(model_items(s) == model_items(s.drop_last()).push(s.last()@));
    }
}

/// The model of a sequence of entries has one entry per entry, in order.
pub proof fn lemma_model_entries(s: Seq<(String, Value)>)
    ensures
        model_entries(s).len() == s.len(),
        forall|i: int|
            0 <= i < s.len() ==> #[trigger] model_entries(s)[i] == (s[i].0@, s[i].1@),
    decreases s.len(),
{
    if s.len() == 0 {
        assert(model_entries(s) == Seq::<(Seq<char>, ValueModel)>::empty());
    } else {
        lemma_model_entries(s.drop_last());
        assert(model_entries(s) == model_entries(s.drop_last()).push((s.last().0@, s.last().1@)));
    }
}

} // verus!
