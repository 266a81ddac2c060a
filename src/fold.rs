//! Folding an ordered sequence of documents into one.

use vstd::prelude::*;
use crate::value::{Value, ValueModel, model_items, lemma_model_items};
use crate::merge::{merge_models, merge_into};

verus! {

/// The fold of documents `s`, left to right: `Null` when there is none, the
/// first one as it is, and each later one merged into what came before.
pub open spec fn fold_models(s: Seq<ValueModel>) -> ValueModel
    decreases s.len(),
{
    if s.len() == 0 {
        ValueModel::Null
    } else if s.len() == 1 {
        s[0]
    } else {
        merge_models(fold_models(s.drop_last()), s.last())
    }
}

/// The accumulator of a fold: empty until the first document arrives.
pub struct MergeState {
    acc: Option<Value>,
}

impl View for MergeState {
    type V = Option<ValueModel>;

    closed spec fn view(&self) -> Option<ValueModel> {
        match self.acc {
            Some(v) => Some(v@),
            None => None,
        }
    }
}

impl MergeState {
    /// A fold that has seen no document.
    pub fn new() -> (r: MergeState)
        ensures
            r@ == None::<ValueModel>,
    {
        MergeState { acc: None }
    }

    /// Takes the next document: the first one is adopted as it is, each later
    /// one is merged into the accumulator.
    pub fn push(&mut self, v: Value)
        ensures
            final(self)@ == Some(
                match old(self)@ {
                    None => v@,
                    Some(a) => merge_models(a, v@),
                },
            ),
    {
        match self.acc.take() {
            None => {
                self.acc = Some(v);
            },
            Some(mut a) => {
                merge_into(&mut a, v);
                self.acc = Some(a);
            },
        }
    }

    /// The result of the fold: `Null` when no document came.
    pub fn finish(self) -> (r: Value)
        ensures
            r@ == match self@ {
                None => ValueModel::Null,
                Some(a) => a,
            },
    {
        match self.acc {
            Some(a) => a,
            None => Value::Null,
        }
    }
}

/// Folds `values` left to right into one document.
pub fn merge_all(values: Vec<Value>) -> (r: Value)
    ensures
        r@ == fold_models(model_items(values@)),
{
    let ghost s = values@;
    proof {
        lemma_model_items(s);
    }
    let mut rest = values;
    let mut state = MergeState::new();
    let n = rest.len();
    let mut j: usize = 0;
    while j < n
        invariant
            n == s.len(),
            j <= n,
            rest@ == s.subrange(j as int, n as int),
            model_items(s).len() == s.len(),
            forall|i: int| 0 <= i < s.len() ==> #[trigger] model_items(s)[i] == s[i]@,
            j == 0 ==> state@ == None::<ValueModel>,
            j > 0 ==> state@ == Some(fold_models(model_items(s).subrange(0, j as int))),
        decreases n - j,
    {
        let v = rest.remove(0);
        proof {
            assert(v == s[j as int]);
            let m = model_items(s);
            assert(m.subrange(0, j + 1).drop_last() =~= m.subrange(0, j as int));
        }
        state.push(v);
        j = j + 1;
    }
    proof {
        assert(model_items(s).subrange(0, n as int) =~= model_items(s));
    }
    state.finish()
}

/// Folding no document gives `Null`; folding one gives that document.
pub proof fn lemma_fold_small(v: ValueModel)
    ensures
        fold_models(Seq::empty()) == ValueModel::Null,
        fold_models(seq![v]) == v,
{
}

} // verus!
