//! The merge of two JSON values.

use vstd::prelude::*;
use crate::laws::{well_formed, lemma_merge_well_formed};
use crate::value::{Value, ValueModel, model_items, model_entries, lemma_model_items, lemma_model_entries};

verus! {

/// Object entries, as keys and models of values.
pub type Entries = Seq<(Seq<char>, ValueModel)>;

/// `i` is the first position of key `k` in `e`.
pub open spec fn is_first_key(e: Entries, k: Seq<char>, i: int) -> bool {
    &&& 0 <= i < e.len()
    &&& e[i].0 == k
    &&& forall|j: int| 0 <= j < i ==> e[j].0 != k
}

/// `e` holds key `k`.
pub open spec fn has_key(e: Entries, k: Seq<char>) -> bool {
    exists|i: int| is_first_key(e, k, i)
}

/// The first position of key `k` in `e`, where `e` holds it.
pub open spec fn key_index(e: Entries, k: Seq<char>) -> int {
    choose|i: int| is_first_key(e, k, i)
}

/// The value of key `k` in `e`, at its first position.
pub open spec fn lookup(e: Entries, k: Seq<char>) -> Option<ValueModel> {
    if has_key(e, k) {
        Some(e[key_index(e, k)].1)
    } else {
        None
    }
}

/// No key occurs twice in `e`.
pub open spec fn unique_keys(e: Entries) -> bool {
    forall|i: int, j: int| 0 <= i < j < e.len() ==> e[i].0 != e[j].0
}

/// The merge of `incoming` into `acc`: two arrays concatenate, two objects
/// merge key by key, and in every other case `incoming` replaces `acc`.
pub open spec fn merge_models(acc: ValueModel, incoming: ValueModel) -> ValueModel
    decreases incoming,
{
    match incoming {
        ValueModel::Array(b) => match acc {
            ValueModel::Array(a) => ValueModel::Array(a + b),
            _ => incoming,
        },
        ValueModel::Object(b) => match acc {
            ValueModel::Object(a) => ValueModel::Object(merge_entries(a, b)),
            _ => incoming,
        },
        _ => incoming,
    }
}

/// The entries of `acc` after the entries of `incoming` were merged into it in
/// order: a key already present has its value merged in place, a new key is
/// added at the end.
pub open spec fn merge_entries(acc: Entries, incoming: Entries) -> Entries
    decreases incoming,
{
    if incoming.len() == 0 {
        acc
    } else {
        let r = merge_entries(acc, incoming.drop_last());
        let e = incoming.last();
        if has_key(r, e.0) {
            let i = key_index(r, e.0);
            r.update(i, (r[i].0, merge_models(r[i].1, e.1)))
        } else {
            r.push(e)
        }
    }
}

/// The first position of key `k` in `entries`, if it holds that key.
pub fn find_key(entries: &Vec<(String, Value)>, k: &String) -> (r: Option<usize>)
    ensures
        match r {
            Some(i) => is_first_key(model_entries(entries@), k@, i as int),
            None => !has_key(model_entries(entries@), k@),
        },
{
    proof {
        lemma_model_entries(entries@);
    }
    let ghost e = model_entries(entries@);
    let mut i: usize = 0;
    while i < entries.len()
        invariant
            i <= entries.len(),
            e == model_entries(entries@),
            e.len() == entries.len(),
            forall|t: int| 0 <= t < entries.len() ==> #[trigger] e[t].0 == entries@[t].0@,
            forall|t: int| 0 <= t < i ==> #[trigger] e[t].0 != k@,
        decreases entries.len() - i,
    {
        if entries[i].0 == *k {
            proof {
                assert(is_first_key(e, k@, i as int));
            }
            return Some(i);
        }
        i = i + 1;
    }
    proof {
        assert forall|t: int| !is_first_key(e, k@, t) by {
            if 0 <= t < e.len() {
                assert(e[t].0 != k@);
            }
        }
    }
    None
}

/// Merges `incoming` into `acc`, consuming both. Two well-formed values give a
/// well-formed value.
pub fn merge(acc: Value, incoming: Value) -> (r: Value)
    ensures
        r@ == merge_models(acc@, incoming@),
        well_formed(acc@) && well_formed(incoming@) ==> well_formed(r@),
    decreases incoming,
{
    proof {
        if well_formed(acc@) && well_formed(incoming@) {
            lemma_merge_well_formed(acc@, incoming@);
        }
    }
    let ghost inc0 = incoming;
    match incoming {
        Value::Array(mut b) => match acc {
            Value::Array(mut a) => {
                let ghost a0 = a@;
                let ghost b0 = b@;
                a.append(&mut b);
                proof {
                    lemma_model_items(a0);
                    lemma_model_items(b0);
                    lemma_model_items(a@);
                    assert(model_items(a@) =~= model_items(a0) + model_items(b0));
                }
                Value::Array(a)
            },
            _ => Value::Array(b),
        },
        Value::Object(mut b) => match acc {
            Value::Object(mut a) => {
                let ghost a0 = a@;
                let ghost bvec = b;
                let ghost b0 = b@;
                proof {
                    lemma_model_entries(b0);
                    assert(model_entries(b0.subrange(0, 0)) =~= Seq::empty());
                }
                let n = b.len();
                let mut j: usize = 0;
                while j < n
                    invariant
                        n == b0.len(),
                        j <= n,
                        b@ == b0.subrange(j as int, n as int),
                        inc0 == incoming,
                        inc0 == Value::Object(bvec),
                        b0 == bvec@,
                        model_entries(a@) == merge_entries(
                            model_entries(a0),
                            model_entries(b0.subrange(0, j as int)),
                        ),
                    decreases n - j,
                {
                    let (k, bv) = b.remove(0);
                    proof {
                        assert(b0[j as int] == (k, bv));
                        assert(decreases_to!(inc0 => inc0->Object_0));
                        assert(decreases_to!(bvec => bvec@));
                        assert(decreases_to!(b0 => b0[j as int]));
                        assert(decreases_to!(inc0 => bv));
                    }
                    let ghost r = model_entries(a@);
                    proof {
                        lemma_model_entries(a@);
                    }
                    let found = find_key(&a, &k);
                    proof {
                        lemma_model_entries(b0.subrange(0, j + 1));
                        lemma_model_entries(b0.subrange(0, j as int));
                        assert(model_entries(b0.subrange(0, j + 1)).drop_last() =~= model_entries(
                            b0.subrange(0, j as int),
                        ));
                    }
                    if let Some(i) = found {
                        let (ak, av) = a.remove(i);
                        let m = merge(av, bv);
                        a.insert(i, (ak, m));
                        proof {
                            lemma_model_entries(a@);
                            assert(model_entries(a@) =~= r.update(
                                i as int,
                                (r[i as int].0, merge_models(r[i as int].1, bv@)),
                            ));
                        }
                    } else {
                        a.push((k, bv));
                        proof {
                            lemma_model_entries(a@);
                            assert(model_entries(a@) =~= r.push((k@, bv@)));
                        }
                    }
                    j = j + 1;
                }
                proof {
                    assert(b0.subrange(0, n as int) =~= b0);
                }
                Value::Object(a)
            },
            _ => Value::Object(b),
        },
        _ => incoming,
    }
}

/// Merges `incoming` into `acc` in place.
pub fn merge_into(acc: &mut Value, incoming: Value)
    ensures
        final(acc)@ == merge_models(old(acc)@, incoming@),
{
    let mut cur = Value::Null;
    std::mem::swap(acc, &mut cur);
    let mut merged = merge(cur, incoming);
    std::mem::swap(acc, &mut merged);
}

} // verus!
