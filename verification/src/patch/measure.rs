//! The size of a patch document, which the rules that apply nested rules
//! make smaller at each step.
use vstd::prelude::*;
use crate::patch::dict::lemma_first_key_spec;
use crate::patch::yaml::{YamlHash, YamlV, first_key, lookup};
use crate::patch::yaml_ext::entry;

verus! {

/// The number of nodes of `v`.
pub open spec fn yv_size(v: YamlV) -> nat
    decreases v,
{
    match v {
        YamlV::Array(a) => 1 + items_size(a),
        YamlV::Hash(h) => 1 + pairs_size(h),
        _ => 1,
    }
}

/// The number of nodes of the items `a`.
pub open spec fn items_size(a: Seq<YamlV>) -> nat
    decreases a,
{
    if a.len() == 0 {
        0
    } else {
        items_size(a.drop_last()) + yv_size(a.last())
    }
}

/// The number of nodes of the entries `h`.
pub open spec fn pairs_size(h: Seq<(YamlV, YamlV)>) -> nat
    decreases h,
{
    if h.len() == 0 {
        0
    } else {
        pairs_size(h.drop_last()) + yv_size(h.last().0) + yv_size(h.last().1)
    }
}

/// The size of a mapping.
pub open spec fn hash_size(h: &YamlHash) -> nat {
    pairs_size(h.view_pairs())
}

/// A value of an entry is smaller than the entries.
pub proof fn lemma_value_smaller(h: Seq<(YamlV, YamlV)>, i: int)
    requires
        0 <= i < h.len(),
    ensures
        yv_size(h[i].1) < pairs_size(h),
        yv_size(h[i].0) < pairs_size(h),
    decreases h.len(),
{
    lemma_size_positive(h[i].0);
    lemma_size_positive(h[i].1);
    lemma_size_positive(h.last().0);
    lemma_size_positive(h.last().1);
    if i < h.len() - 1 {
        lemma_value_smaller(h.drop_last(), i);
        assert(h.drop_last()[i] == h[i]);
    }
}

proof fn lemma_size_positive(v: YamlV)
    ensures
        yv_size(v) >= 1,
{
    match v {
        YamlV::Array(a) => {},
        YamlV::Hash(h) => {},
        _ => {},
    }
}

/// An item of a sequence is smaller than the sequence.
pub proof fn lemma_item_smaller(a: Seq<YamlV>, i: int)
    requires
        0 <= i < a.len(),
    ensures
        yv_size(a[i]) <= items_size(a),
    decreases a.len(),
{
    if i < a.len() - 1 {
        lemma_item_smaller(a.drop_last(), i);
        assert(a.drop_last()[i] == a[i]);
    }
}

/// The value found under a key is smaller than the entries.
pub proof fn lemma_entry_smaller(h: Seq<(YamlV, YamlV)>, k: Seq<char>)
    requires
        h.len() <= usize::MAX,
    ensures
        entry(h, k) matches Some(v) ==> yv_size(v) < pairs_size(h),
{
    lemma_first_key_spec(h, YamlV::Str(k));
    if let Some(i) = first_key(h, YamlV::Str(k)) {
        lemma_value_smaller(h, i as int);
    }
}

} // verus!
