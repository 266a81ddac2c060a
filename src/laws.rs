//! Properties of the merge, proved over the model.

use vstd::prelude::*;
use crate::value::ValueModel;
use crate::merge::{
    Entries, is_first_key, has_key, key_index, lookup, unique_keys, merge_models, merge_entries,
};

verus! {

/// Every object in `v`, at any depth, holds each key once.
pub open spec fn well_formed(v: ValueModel) -> bool
    decreases v,
{
    match v {
        ValueModel::Array(s) => forall|i: int| 0 <= i < s.len() ==> well_formed(#[trigger] s[i]),
        ValueModel::Object(e) => unique_keys(e) && entries_well_formed(e),
        _ => true,
    }
}

/// Every value of `e` is well formed.
pub open spec fn entries_well_formed(e: Entries) -> bool
    decreases e,
{
    forall|i: int| 0 <= i < e.len() ==> well_formed(#[trigger] e[i].1)
}

/// A scalar: neither an array nor an object.
pub open spec fn is_scalar(v: ValueModel) -> bool {
    !(v is Array) && !(v is Object)
}

/// What a key holds after an object merge, from what it held on each side.
pub open spec fn merged_lookup(a: Option<ValueModel>, b: Option<ValueModel>) -> Option<ValueModel> {
    match (a, b) {
        (Some(x), Some(y)) => Some(merge_models(x, y)),
        (Some(x), None) => Some(x),
        (None, y) => y,
    }
}

/// Two arrays merge into the first followed by the second: the length is the
/// sum of the lengths and both keep their order.
pub proof fn lemma_merge_arrays(a: Seq<ValueModel>, b: Seq<ValueModel>)
    ensures
        merge_models(ValueModel::Array(a), ValueModel::Array(b)) == ValueModel::Array(a + b),
        (a + b).len() == a.len() + b.len(),
        forall|i: int| 0 <= i < a.len() ==> #[trigger] (a + b)[i] == a[i],
        forall|i: int| 0 <= i < b.len() ==> #[trigger] (a + b)[a.len() + i] == b[i],
{
}

/// Unless both sides are arrays or both are objects, the incoming value
/// replaces the accumulated one.
pub proof fn lemma_merge_replaces(a: ValueModel, b: ValueModel)
    requires
        !(a is Array && b is Array),
        !(a is Object && b is Object),
    ensures
        merge_models(a, b) == b,
{
}

/// Merging an array with itself doubles it, so a non-empty array is not a
/// fixed point of self-merge.
pub proof fn lemma_self_merge_doubles_array(s: Seq<ValueModel>)
    ensures
        merge_models(ValueModel::Array(s), ValueModel::Array(s)) == ValueModel::Array(s + s),
        s.len() > 0 ==> merge_models(ValueModel::Array(s), ValueModel::Array(s))
            != ValueModel::Array(s),
{
    if s.len() > 0 {
        assert((s + s).len() != s.len());
    }
}

/// Self-merge of an object doubles each array it holds, so an object with a
/// non-empty array value is not a fixed point of self-merge.
pub proof fn lemma_self_merge_doubles_array_in_object(e: Entries, k: Seq<char>, s: Seq<ValueModel>)
    requires
        unique_keys(e),
        lookup(e, k) == Some(ValueModel::Array(s)),
    ensures
        lookup(merge_entries(e, e), k) == Some(ValueModel::Array(s + s)),
        s.len() > 0 ==> merge_models(ValueModel::Object(e), ValueModel::Object(e))
            != ValueModel::Object(e),
{
    lemma_merge_objects(e, e, k);
    lemma_self_merge_doubles_array(s);
    if s.len() > 0 {
        assert((s + s).len() != s.len());
        assert(ValueModel::Array(s + s) != ValueModel::Array(s));
    }
}

proof fn lemma_same_keys_lookup(r: Entries, r2: Entries, k: Seq<char>)
    requires
        r.len() == r2.len(),
        forall|t: int| 0 <= t < r.len() ==> #[trigger] r2[t].0 == r[t].0,
    ensures
        has_key(r2, k) == has_key(r, k),
        has_key(r, k) ==> key_index(r2, k) == key_index(r, k),
{
    if has_key(r, k) {
        let i = key_index(r, k);
        assert(is_first_key(r2, k, i));
        let i2 = key_index(r2, k);
        assert(is_first_key(r2, k, i2));
    }
    if has_key(r2, k) {
        let i2 = key_index(r2, k);
        assert(is_first_key(r2, k, i2));
        assert forall|j: int| 0 <= j < i2 implies r[j].0 != k by {
            assert(r2[j].0 == r[j].0);
        }
        assert(r2[i2].0 == r[i2].0);
        assert(is_first_key(r, k, i2));
    }
}

proof fn lemma_first_key_exists(e: Entries, k: Seq<char>, j: int)
    requires
        0 <= j < e.len(),
        e[j].0 == k,
    ensures
        has_key(e, k),
    decreases j,
{
    if exists|t: int| 0 <= t < j && e[t].0 == k {
        let t = choose|t: int| 0 <= t < j && e[t].0 == k;
        lemma_first_key_exists(e, k, t);
    } else {
        assert(is_first_key(e, k, j));
    }
}

proof fn lemma_push_lookup(r: Entries, e: (Seq<char>, ValueModel), k: Seq<char>)
    ensures
        lookup(r.push(e), k) == if has_key(r, k) {
            lookup(r, k)
        } else if k == e.0 {
            Some(e.1)
        } else {
            None
        },
{
    let r2 = r.push(e);
    if has_key(r, k) {
        let i = key_index(r, k);
        assert(is_first_key(r2, k, i));
        let i2 = key_index(r2, k);
        assert(is_first_key(r2, k, i2));
    } else if k == e.0 {
        assert forall|j: int| 0 <= j < r.len() implies r2[j].0 != k by {
            assert(r2[j] == r[j]);
            if r[j].0 == k {
                lemma_first_key_exists(r, k, j);
            }
        }
        assert(is_first_key(r2, k, r.len() as int));
        let i2 = key_index(r2, k);
        assert(is_first_key(r2, k, i2));
        assert(!is_first_key(r, k, i2));
    } else {
        if has_key(r2, k) {
            let i2 = key_index(r2, k);
            assert(is_first_key(r2, k, i2));
            assert(i2 < r.len());
            assert forall|j: int| 0 <= j < i2 implies r[j].0 != k by {
                assert(r2[j] == r[j]);
            }
            assert(r2[i2] == r[i2]);
            assert(is_first_key(r, k, i2));
        }
    }
}

/// Merging objects, key by key: a key on one side only keeps its value, and a
/// key on both sides holds the merge of its two values.
pub proof fn lemma_merge_objects(a: Entries, b: Entries, k: Seq<char>)
    requires
        unique_keys(b),
    ensures
        merge_models(ValueModel::Object(a), ValueModel::Object(b)) == ValueModel::Object(
            merge_entries(a, b),
        ),
        lookup(merge_entries(a, b), k) == merged_lookup(lookup(a, k), lookup(b, k)),
    decreases b.len(),
{
    if b.len() > 0 {
        let b1 = b.drop_last();
        let e = b.last();
        lemma_merge_objects(a, b1, k);
        let r = merge_entries(a, b1);
        lemma_push_lookup(b1, e, k);
        assert(b1.push(e) =~= b);
        if has_key(b1, e.0) {
            let t = key_index(b1, e.0);
            assert(is_first_key(b1, e.0, t));
            assert(b[t].0 != b[b.len() - 1].0);
        }
        if has_key(r, e.0) {
            let i = key_index(r, e.0);
            assert(is_first_key(r, e.0, i));
            let r2 = r.update(i, (r[i].0, merge_models(r[i].1, e.1)));
            lemma_same_keys_lookup(r, r2, k);
        } else {
            lemma_push_lookup(r, e, k);
        }
    }
}

proof fn lemma_self_merge_prefix(e: Entries, j: int)
    requires
        unique_keys(e),
        0 <= j <= e.len(),
        forall|t: int| 0 <= t < e.len() ==> is_scalar(#[trigger] e[t].1),
    ensures
        merge_entries(e, e.subrange(0, j)) == e,
    decreases j,
{
    if j > 0 {
        lemma_self_merge_prefix(e, j - 1);
        assert(e.subrange(0, j).drop_last() =~= e.subrange(0, j - 1));
        assert(is_first_key(e, e[j - 1].0, j - 1));
        let i = key_index(e, e[j - 1].0);
        assert(is_first_key(e, e[j - 1].0, i));
        assert(e.update(j - 1, (e[j - 1].0, merge_models(e[j - 1].1, e[j - 1].1))) =~= e);
    }
}

/// An object whose values are all scalars is a fixed point of self-merge.
pub proof fn lemma_self_merge_scalar_object(e: Entries)
    requires
        unique_keys(e),
        forall|t: int| 0 <= t < e.len() ==> is_scalar(#[trigger] e[t].1),
    ensures
        merge_models(ValueModel::Object(e), ValueModel::Object(e)) == ValueModel::Object(e),
{
    lemma_self_merge_prefix(e, e.len() as int);
    assert(e.subrange(0, e.len() as int) =~= e);
}

/// Merging two well-formed values gives a well-formed value.
pub proof fn lemma_merge_well_formed(a: ValueModel, b: ValueModel)
    requires
        well_formed(a),
        well_formed(b),
    ensures
        well_formed(merge_models(a, b)),
    decreases b,
{
    match (a, b) {
        (ValueModel::Array(x), ValueModel::Array(y)) => {
            assert forall|i: int| 0 <= i < (x + y).len() implies well_formed(#[trigger] (x + y)[i]) by {
                if i < x.len() {
                    assert(well_formed(x[i]));
                } else {
                    assert(well_formed(y[i - x.len()]));
                }
            }
        },
        (ValueModel::Object(x), ValueModel::Object(y)) => {
            lemma_merge_entries_well_formed(x, y);
        },
        _ => {},
    }
}

proof fn lemma_merge_entries_well_formed(a: Entries, b: Entries)
    requires
        unique_keys(a),
        entries_well_formed(a),
        unique_keys(b),
        entries_well_formed(b),
    ensures
        unique_keys(merge_entries(a, b)),
        entries_well_formed(merge_entries(a, b)),
    decreases b,
{
    if b.len() > 0 {
        let b1 = b.drop_last();
        let e = b.last();
        assert(entries_well_formed(b1)) by {
            assert forall|i: int| 0 <= i < b1.len() implies well_formed(#[trigger] b1[i].1) by {
                assert(b1[i] == b[i]);
            }
        }
        lemma_merge_entries_well_formed(a, b1);
        let r = merge_entries(a, b1);
        assert(well_formed(b[b.len() - 1].1));
        if has_key(r, e.0) {
            let i = key_index(r, e.0);
            assert(is_first_key(r, e.0, i));
            assert(decreases_to!(b => b[b.len() - 1]));
            lemma_merge_well_formed(r[i].1, e.1);
            let r2 = r.update(i, (r[i].0, merge_models(r[i].1, e.1)));
            assert(merge_entries(a, b) == r2);
            assert forall|t: int| 0 <= t < r2.len() implies well_formed(#[trigger] r2[t].1) by {
                if t != i {
                    assert(r2[t] == r[t]);
                }
            }
        } else {
            let r2 = r.push(e);
            assert(merge_entries(a, b) == r2);
            assert forall|s: int, t: int| 0 <= s < t < r2.len() implies r2[s].0 != r2[t].0 by {
                if t == r.len() && r[s].0 == e.0 {
                    lemma_first_key_exists(r, e.0, s);
                }
            }
            assert forall|t: int| 0 <= t < r2.len() implies well_formed(#[trigger] r2[t].1) by {
                if t < r.len() {
                    assert(r2[t] == r[t]);
                }
            }
        }
    }
}

} // verus!
