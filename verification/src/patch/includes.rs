//! The decisions of `_include`: which nested mappings carry their own
//! includes, which files are already in, and how an included file is merged.
use vstd::prelude::*;
use crate::patch::builders::texts_of;
use crate::patch::yaml::{Yaml, YamlHash, YamlV, yv};
use crate::patch::yaml_ext::entry;
use crate::text::str_eq;

verus! {

/// The key `_include`.
pub open spec fn k_include() -> Seq<char> {
    seq!['_', 'i', 'n', 'c', 'l', 'u', 'd', 'e']
}

/// Entry `i` of `ps` is a nested block with includes of its own: its key is
/// a text that does not start with `_` (no rule) and its value is a mapping
/// with an `_include` key.
pub open spec fn includes_at(ps: Seq<(YamlV, YamlV)>, i: int) -> bool {
    &&& ps[i].0 matches YamlV::Str(k) && !(k.len() > 0 && k[0] == '_')
    &&& ps[i].1 matches YamlV::Hash(h) && entry(h, k_include()) is Some
}

/// The places `i < n` of the entries of `ps` that carry includes, in order.
pub open spec fn includer_places(ps: Seq<(YamlV, YamlV)>, n: int) -> Seq<int>
    decreases n,
{
    if n <= 0 {
        Seq::empty()
    } else {
        includer_places(ps, n - 1) + if includes_at(ps, n - 1) {
            seq![n - 1]
        } else {
            Seq::empty()
        }
    }
}

/// The places of the entries of `parent` whose nested blocks have includes
/// of their own, in order (see [`includes_at`]).
pub fn includers(parent: &YamlHash) -> (r: Vec<usize>)
    ensures
        r@.map_values(|i: usize| i as int) == includer_places(parent.view_pairs(), parent.view_pairs().len() as int),
{
    broadcast use crate::patch::yaml::group_yaml_views;
    let ghost ps = parent.view_pairs();
    let n = parent.entries.len();
    let mut out: Vec<usize> = Vec::new();
    let mut i: usize = 0;
    while i < n
        invariant
            n == parent.entries@.len(),
            ps == parent.view_pairs(),
            ps.len() == n,
            i <= n,
            out@.map_values(|j: usize| j as int) == includer_places(ps, i as int),
        decreases n - i,
    {
        proof {
            crate::patch::yaml::lemma_yv_pairs(parent.entries@);
        }
        assert(ps[i as int] == (yv(parent.entries@[i as int].0), yv(parent.entries@[i as int].1)));
        let rule = match &parent.entries[i].0 {
            Yaml::String(k) => {
                let b = k.as_str().unicode_len() > 0 && k.as_str().get_char(0) == '_';
                assert(ps[i as int].0 == YamlV::Str(k@));
                assert(b == (k@.len() > 0 && k@[0] == '_'));
                b
            },
            _ => {
                assert(!(ps[i as int].0 is Str));
                true
            },
        };
        let nested = match &parent.entries[i].1 {
            Yaml::Hash(h) => {
                assert(ps[i as int].1 == YamlV::Hash(h.view_pairs()));
                proof {
                    reveal_strlit("_include");
                    assert("_include"@ =~= k_include());
                }
                let b = h.get_yaml("_include").is_some();
                assert(b == (entry(h.view_pairs(), k_include()) is Some));
                b
            },
            _ => {
                assert(!(ps[i as int].1 is Hash));
                false
            },
        };
        assert(includes_at(ps, i as int) == (!rule && nested));
        let ghost before = out@;
        if !rule && nested {
            out.push(i);
            assert(out@.map_values(|j: usize| j as int) =~= before.map_values(|j: usize| j as int).push(i as int));
        }
        i = i + 1;
    }
    out
}

/// Whether the file `path` is among those already `included`.
pub fn already_included(included: &Vec<String>, path: &str) -> (r: bool)
    ensures
        r == texts_of(included@).contains(path@),
{
    let mut i: usize = 0;
    while i < included.len()
        invariant
            i <= included@.len(),
            forall|j: int| 0 <= j < i ==> included@[j]@ != path@,
        decreases included.len() - i,
    {
        if str_eq(included[i].as_str(), path) {
            assert(texts_of(included@)[i as int] == path@);
            return true;
        }
        i = i + 1;
    }
    proof {
        if texts_of(included@).contains(path@) {
            let j = choose|j: int| 0 <= j < texts_of(included@).len() && texts_of(included@)[j] == path@;
            assert(included@[j]@ == path@);
        }
    }
    false
}

} // verus!
