//! Working through the rules of a peripheral or cluster: the rules that
//! change its registers and clusters, then those of each register and
//! cluster, then the rules that collect registers into arrays and clusters.
use vstd::prelude::*;
use crate::model::{Cluster, DimElement, Register, RegisterCluster};
use crate::patch::arrays::{check_offsets, spec_ind};
use crate::patch::block::{
    Kinds, Rename, clear_fields_in, keep_kind, kind_compiles, rc_name, remove_selected, rename_members, reg_renamed,
    cluster_renamed, rc_renamed, renamed_text, uses_glob, rename_glob,
};
use crate::patch::register::{stripped_start, stripped_end};
use crate::patch::names::plain_glob_ok;
use crate::patch::block_edit::{has_cluster_named, select_flags};
use crate::patch::names::name_matches;
use crate::patch::block_edit::{add_cluster_to, add_register_to, modify_child_in, modify_clusters_in, modify_registers_in};
use crate::patch::builders::{BlockPath, texts_of};
use crate::patch::copy_derive::{copy_register_in, derive_register_in};
use crate::patch::expand::{ExpandOpts, expand_array_in, expand_cluster_in};
use crate::patch::register_process::copy_block;
use crate::patch::error::{PatchError, PatchErrorKind, failed_with};
use crate::patch::measure::{hash_size, lemma_entry_smaller, lemma_value_smaller, pairs_size, yv_size};
use crate::patch::yaml::{Yaml, YamlHash, YamlV, group_yaml_views, yv, yv_pairs, yv_seq};
use crate::patch::yaml_ext::{YamlError, entry, hash_of, str_items};
use crate::patch::{Config, Spec, spec_parts};
use crate::text::{copy_str, str_eq};

verus! {

/// `b` is cluster `a` with, at most, other members.
pub open spec fn same_but_children(a: Cluster, b: Cluster) -> bool {
    b == Cluster { children: b.children, ..a }
}

/// A nested mapping is smaller than the mapping that holds it.
pub proof fn lemma_child_smaller(parent: &YamlHash, i: int, child: &YamlHash)
    requires
        0 <= i < parent.entries@.len(),
        parent.entries@[i].1 == Yaml::Hash(*child),
    ensures
        hash_size(child) < hash_size(parent),
{
    crate::patch::yaml::lemma_yv_pairs(parent.entries@);
    lemma_value_smaller(parent.view_pairs(), i);
    assert(yv(parent.entries@[i].1) == YamlV::Hash(child.view_pairs()));
}

/// A mapping found under a key is smaller than the mapping that holds it.
pub proof fn lemma_found_smaller(parent: &YamlHash, k: Seq<char>, child: Seq<(YamlV, YamlV)>)
    requires
        parent.entries@.len() <= usize::MAX,
        entry(parent.view_pairs(), k) == Some(YamlV::Hash(child)),
    ensures
        pairs_size(child) < hash_size(parent),
{
    crate::patch::yaml::lemma_yv_pairs(parent.entries@);
    lemma_entry_smaller(parent.view_pairs(), k);
    assert(yv_size(YamlV::Hash(child)) == 1 + pairs_size(child));
}

fn yaml_err<T>(r: Result<T, YamlError>) -> (o: Result<T, PatchError>)
    ensures
        match r {
            Ok(x) => o == Ok::<T, PatchError>(x),
            Err(_) => o is Err,
        },
{
    match r {
        Ok(x) => Ok(x),
        Err(e) => Err(PatchError::Yaml(e)),
    }
}

/// A block path one cluster deeper.
pub fn new_cluster_path(parent: &BlockPath, name: &str) -> (r: BlockPath)
    ensures
        r.peripheral@ == parent.peripheral@,
        texts_of(r.path@) == texts_of(parent.path@).push(name@),
{
    let mut b = copy_block(parent);
    let ghost before = b.path@;
    b.path.push(copy_str(name));
    assert(texts_of(b.path@) =~= texts_of(before).push(name@));
    b
}

/// A keyword of the rules of a block rather than the name of one of its
/// registers or clusters.
pub fn is_block_keyword(k: &str, peripheral: bool) -> (r: bool)
    ensures
        rename_key(k@) ==> r,
{
    proof {
        reveal_strlit("_strip");
        reveal_strlit("_strip_end");
        reveal_strlit("_prefix");
        reveal_strlit("_suffix");
        assert("_strip"@ =~= k_strip());
        assert("_strip_end"@ =~= k_strip_end());
        assert("_prefix"@ =~= k_prefix());
        assert("_suffix"@ =~= k_suffix());
    }
    str_eq(k, "_include") || str_eq(k, "_path") || str_eq(k, "_delete") || str_eq(k, "_copy") || str_eq(
        k,
        "_strip",
    ) || str_eq(k, "_strip_end") || str_eq(k, "_prefix") || str_eq(k, "_suffix") || str_eq(k, "_modify")
        || str_eq(k, "_clear_fields") || str_eq(k, "_add") || str_eq(k, "_derive") || str_eq(k, "_expand_array")
        || str_eq(k, "_expand_cluster") || str_eq(k, "_array") || str_eq(k, "_cluster") || str_eq(k, "_clusters")
        || (peripheral && str_eq(k, "_interrupts"))
}

/// Deleting the members of kind `k` that `spec` selects: `None` when the
/// block has no list of members or a glob that is needed does not compile.
pub open spec fn delete_one(cs: Seq<RegisterCluster>, present: bool, spec: Seq<char>, k: Kinds) -> Option<
    Seq<RegisterCluster>,
> {
    if !present || !kind_compiles(cs, spec, k) {
        None
    } else {
        Some(cs.filter(keep_kind(spec, k)))
    }
}

/// Whether `spec` selects some member of kind `k`.
pub open spec fn selects_some(cs: Seq<RegisterCluster>, spec: Seq<char>, k: Kinds) -> bool {
    exists|i: int| 0 <= i < cs.len() && !keep_kind(spec, k)(#[trigger] cs[i])
}

/// The deletions `specs`, in turn: whether all of them went through, and the
/// members left (after a failure, those left by the deletions before it).
pub open spec fn delete_specs(cs: Seq<RegisterCluster>, present: bool, specs: Seq<Seq<char>>, k: Kinds) -> (
    bool,
    Seq<RegisterCluster>,
)
    decreases specs.len(),
{
    if specs.len() == 0 {
        (true, cs)
    } else {
        let (ok, c) = delete_specs(cs, present, specs.drop_last(), k);
        if !ok {
            (false, c)
        } else {
            match delete_one(c, present, specs.last(), k) {
                None => (false, c),
                Some(c2) => (true, c2),
            }
        }
    }
}

/// The deletions of the list form of `_delete`: each item is a
/// specification of registers and clusters; an item that is no string is an
/// error.
pub open spec fn delete_items(cs: Seq<RegisterCluster>, present: bool, items: Seq<YamlV>) -> (bool, Seq<RegisterCluster>)
    decreases items.len(),
{
    if items.len() == 0 {
        (true, cs)
    } else {
        let (ok, c) = delete_items(cs, present, items.drop_last());
        if !ok {
            (false, c)
        } else {
            match items.last() {
                YamlV::Str(t) => match delete_one(c, present, t, Kinds::Both) {
                    None => (false, c),
                    Some(c2) => (true, c2),
                },
                _ => (false, c),
            }
        }
    }
}

/// The cluster deletions of the mapping form of `_delete`: a specification
/// without the `?~` mark that selects no cluster is an error.
pub open spec fn delete_cluster_specs(cs: Seq<RegisterCluster>, present: bool, specs: Seq<Seq<char>>) -> (
    bool,
    Seq<RegisterCluster>,
)
    decreases specs.len(),
{
    if specs.len() == 0 {
        (true, cs)
    } else {
        let (ok, c) = delete_cluster_specs(cs, present, specs.drop_last());
        if !ok {
            (false, c)
        } else {
            let (t, ignore) = spec_parts(specs.last());
            match delete_one(c, present, t, Kinds::Clusters) {
                None => (false, c),
                Some(c2) => (selects_some(c, t, Kinds::Clusters) || ignore, c2),
            }
        }
    }
}

/// The texts listed under the key `k` of a mapping.
pub open spec fn listed(d: Seq<(YamlV, YamlV)>, k: Seq<char>) -> Seq<Seq<char>> {
    match entry(d, k) {
        Some(v) => str_items(v),
        None => Seq::empty(),
    }
}

/// The keys `_delete`, `_registers`, `_clusters` and `_interrupts`.
pub open spec fn k_delete() -> Seq<char> {
    seq!['_', 'd', 'e', 'l', 'e', 't', 'e']
}

pub open spec fn k_registers() -> Seq<char> {
    seq!['_', 'r', 'e', 'g', 'i', 's', 't', 'e', 'r', 's']
}

pub open spec fn k_clusters() -> Seq<char> {
    seq!['_', 'c', 'l', 'u', 's', 't', 'e', 'r', 's']
}

pub open spec fn k_interrupts() -> Seq<char> {
    seq!['_', 'i', 'n', 't', 'e', 'r', 'r', 'u', 'p', 't', 's']
}

/// Every key of the mapping form of `_delete` is one that it knows.
pub open spec fn delete_keys_ok(d: Seq<(YamlV, YamlV)>) -> bool {
    forall|i: int|
        0 <= i < d.len() ==> match #[trigger] d[i].0 {
            YamlV::Str(t) => t == k_registers() || t == k_clusters() || t == k_interrupts(),
            _ => false,
        }
}

/// What the `_delete` rule of the rules `cmod` does to the members `cs`:
/// whether it goes through, the members left (after a failure, those left by
/// the deletions made before it), and the interrupt names that the mapping
/// form lists. A text deletes what it selects; a list deletes what each item
/// selects, in order; a mapping deletes the registers that `_registers`
/// selects, then the clusters that `_clusters` selects, and then refuses an
/// unknown key; anything else is refused.
pub open spec fn delete_outcome(cs: Seq<RegisterCluster>, present: bool, cmod: Seq<(YamlV, YamlV)>) -> (
    bool,
    Seq<RegisterCluster>,
    Seq<Seq<char>>,
) {
    match entry(cmod, k_delete()) {
        None => (true, cs, Seq::empty()),
        Some(YamlV::Str(t)) => match delete_one(cs, present, t, Kinds::Both) {
            None => (false, cs, Seq::empty()),
            Some(c) => (true, c, Seq::empty()),
        },
        Some(YamlV::Array(a)) => {
            let (ok, c) = delete_items(cs, present, a);
            (ok, c, Seq::empty())
        },
        Some(YamlV::Hash(d)) => {
            let (ok1, c1) = delete_specs(cs, present, listed(d, k_registers()), Kinds::Registers);
            if !ok1 {
                (false, c1, Seq::empty())
            } else {
                let (ok2, c2) = delete_cluster_specs(c1, present, listed(d, k_clusters()));
                if !ok2 || !delete_keys_ok(d) {
                    (false, c2, Seq::empty())
                } else {
                    (true, c2, listed(d, k_interrupts()))
                }
            }
        },
        Some(_) => (false, cs, Seq::empty()),
    }
}

/// Once a list of deletions has failed, the deletions after it change
/// nothing.
proof fn lemma_items_stuck(cs: Seq<RegisterCluster>, present: bool, items: Seq<YamlV>, j: int)
    requires
        0 <= j <= items.len(),
        !delete_items(cs, present, items.take(j)).0,
    ensures
        delete_items(cs, present, items) == delete_items(cs, present, items.take(j)),
    decreases items.len(),
{
    if j < items.len() {
        assert(items.drop_last().take(j) =~= items.take(j));
        lemma_items_stuck(cs, present, items.drop_last(), j);
    } else {
        assert(items.take(j) =~= items);
    }
}

proof fn lemma_specs_stuck(cs: Seq<RegisterCluster>, present: bool, specs: Seq<Seq<char>>, k: Kinds, j: int)
    requires
        0 <= j <= specs.len(),
        !delete_specs(cs, present, specs.take(j), k).0,
    ensures
        delete_specs(cs, present, specs, k) == delete_specs(cs, present, specs.take(j), k),
    decreases specs.len(),
{
    if j < specs.len() {
        assert(specs.drop_last().take(j) =~= specs.take(j));
        lemma_specs_stuck(cs, present, specs.drop_last(), k, j);
    } else {
        assert(specs.take(j) =~= specs);
    }
}

proof fn lemma_cluster_specs_stuck(cs: Seq<RegisterCluster>, present: bool, specs: Seq<Seq<char>>, j: int)
    requires
        0 <= j <= specs.len(),
        !delete_cluster_specs(cs, present, specs.take(j)).0,
    ensures
        delete_cluster_specs(cs, present, specs) == delete_cluster_specs(cs, present, specs.take(j)),
    decreases specs.len(),
{
    if j < specs.len() {
        assert(specs.drop_last().take(j) =~= specs.take(j));
        lemma_cluster_specs_stuck(cs, present, specs.drop_last(), j);
    } else {
        assert(specs.take(j) =~= specs);
    }
}

/// Deletes the members that `spec` selects among those of kind `k`; with
/// `present` false the block has no list of members, which is an error.
fn delete_in(cs: &mut Vec<RegisterCluster>, present: bool, spec: &str, k: Kinds) -> (r: Result<bool, PatchError>)
    ensures
        match delete_one(old(cs)@, present, spec@, k) {
            None => r is Err && *final(cs) == *old(cs),
            Some(c) => r == Ok::<bool, PatchError>(selects_some(old(cs)@, spec@, k)) && final(cs)@ == c,
        },
{
    if !present {
        return Err(PatchError::NotFound(copy_str(spec)));
    }
    match remove_selected(cs, spec, k) {
        None => Err(PatchError::InvalidSpec(copy_str(spec))),
        Some(any) => Ok(any),
    }
}

/// Applies the `_delete` rule of a block to its members; gives the interrupt
/// names of its mapping form, which a peripheral deletes (see
/// [`delete_outcome`]).
#[verifier::loop_isolation(false)]
#[verifier::rlimit(40)]
pub(crate) fn delete_rule(cs: &mut Vec<RegisterCluster>, present: bool, cmod: &YamlHash) -> (r: Result<Vec<String>, PatchError>)
    ensures
        ({
            let o = delete_outcome(old(cs)@, present, cmod.view_pairs());
            &&& (r is Ok <==> o.0)
            &&& final(cs)@ == o.1
            &&& (r matches Ok(v) ==> texts_of(v@) == o.2)
        }),
{
    broadcast use crate::patch::yaml::group_yaml_views;
    proof {
        reveal_strlit("_delete");
        reveal_strlit("_registers");
        reveal_strlit("_clusters");
        reveal_strlit("_interrupts");
        assert("_delete"@ =~= k_delete());
        assert("_registers"@ =~= k_registers());
        assert("_clusters"@ =~= k_clusters());
        assert("_interrupts"@ =~= k_interrupts());
    }
    let ghost start = cs@;
    let none: Vec<String> = Vec::new();
    assert(texts_of(none@) =~= Seq::<Seq<char>>::empty());
    match cmod.get_yaml("_delete") {
        None => Ok(none),
        Some(Yaml::String(rcspec)) => {
            delete_in(cs, present, rcspec.as_str(), Kinds::Both)?;
            Ok(none)
        },
        Some(Yaml::Array(specs)) => {
            let ghost items = yv_seq(specs@);
            let mut i: usize = 0;
            assert(items.take(0) =~= Seq::<YamlV>::empty());
            while i < specs.len()
                invariant
                    i <= specs@.len(),
                    items == yv_seq(specs@),
                    items.len() == specs@.len(),
                    delete_items(start, present, items.take(i as int)) == (true, cs@),
                decreases specs.len() - i,
            {
                assert(items.take(i + 1).drop_last() =~= items.take(i as int));
                assert(items.take(i + 1).last() == yv(specs@[i as int]));
                let rcspec = match specs[i].str() {
                    Ok(t) => t,
                    Err(e) => {
                        proof {
                            lemma_items_stuck(start, present, items, i + 1);
                        }
                        return Err(PatchError::Yaml(e));
                    },
                };
                match delete_in(cs, present, rcspec, Kinds::Both) {
                    Ok(_) => {},
                    Err(e) => {
                        proof {
                            lemma_items_stuck(start, present, items, i + 1);
                        }
                        return Err(e);
                    },
                }
                i = i + 1;
            }
            assert(items.take(i as int) =~= items);
            Ok(none)
        },
        Some(Yaml::Hash(d)) => {
            let ghost dv = d.view_pairs();
            let regs = d.str_vec_iter("_registers");
            let ghost rl = texts_of(regs@);
            assert(rl == listed(dv, k_registers()));
            let mut i: usize = 0;
            assert(rl.take(0) =~= Seq::<Seq<char>>::empty());
            while i < regs.len()
                invariant
                    i <= regs@.len(),
                    rl == texts_of(regs@),
                    delete_specs(start, present, rl.take(i as int), Kinds::Registers) == (true, cs@),
                decreases regs.len() - i,
            {
                assert(rl.take(i + 1).drop_last() =~= rl.take(i as int));
                assert(rl.take(i + 1).last() == regs@[i as int]@);
                match delete_in(cs, present, regs[i].as_str(), Kinds::Registers) {
                    Ok(_) => {},
                    Err(e) => {
                        proof {
                            lemma_specs_stuck(start, present, rl, Kinds::Registers, i + 1);
                        }
                        return Err(e);
                    },
                }
                i = i + 1;
            }
            assert(rl.take(i as int) =~= rl);
            let ghost c1 = cs@;
            let clusters = d.str_vec_iter("_clusters");
            let ghost cl = texts_of(clusters@);
            assert(cl == listed(dv, k_clusters()));
            let mut i: usize = 0;
            assert(cl.take(0) =~= Seq::<Seq<char>>::empty());
            while i < clusters.len()
                invariant
                    i <= clusters@.len(),
                    cl == texts_of(clusters@),
                    delete_cluster_specs(c1, present, cl.take(i as int)) == (true, cs@),
                decreases clusters.len() - i,
            {
                assert(cl.take(i + 1).drop_last() =~= cl.take(i as int));
                assert(cl.take(i + 1).last() == clusters@[i as int]@);
                let (cspec, ignore) = clusters[i].as_str().spec();
                let any = match delete_in(cs, present, cspec, Kinds::Clusters) {
                    Ok(a) => a,
                    Err(e) => {
                        proof {
                            lemma_cluster_specs_stuck(c1, present, cl, i + 1);
                        }
                        return Err(e);
                    },
                };
                if !any && !ignore {
                    proof {
                        lemma_cluster_specs_stuck(c1, present, cl, i + 1);
                    }
                    return Err(PatchError::NotFound(copy_str(cspec)));
                }
                i = i + 1;
            }
            assert(cl.take(i as int) =~= cl);
            let mut k: usize = 0;
            while k < d.entries.len()
                invariant
                    k <= d.entries@.len(),
                    dv == d.view_pairs(),
                    dv.len() == d.entries@.len(),
                    forall|j: int| 0 <= j < d.entries@.len() ==> dv[j].0 == yv(d.entries@[j].0),
                    forall|j: int|
                        0 <= j < k ==> match #[trigger] dv[j].0 {
                            YamlV::Str(t) => t == k_registers() || t == k_clusters() || t == k_interrupts(),
                            _ => false,
                        },
                decreases d.entries.len() - k,
            {
                let ok = match &d.entries[k].0 {
                    Yaml::String(s) => str_eq(s.as_str(), "_registers") || str_eq(s.as_str(), "_clusters")
                        || str_eq(s.as_str(), "_interrupts"),
                    _ => false,
                };
                if !ok {
                    assert(!delete_keys_ok(dv)) by {
                        assert(dv[k as int].0 == yv(d.entries@[k as int].0));
                    }
                    return Err(PatchError::Invalid(copy_str("_delete")));
                }
                k = k + 1;
            }
            let ints = d.str_vec_iter("_interrupts");
            Ok(ints)
        },
        Some(_) => Err(PatchError::Invalid(copy_str("_delete"))),
    }
}

/// Member `rc` is a register (plain or array) that `spec` selects.
pub open spec fn any_reg_selected(spec: Seq<char>, rc: RegisterCluster) -> bool {
    rc is Register && name_matches(rc_name(rc), spec)
}

/// The test that keeps members that are not registers selected by `spec`.
pub open spec fn keep_unselected(spec: Seq<char>) -> spec_fn(RegisterCluster) -> bool {
    |rc: RegisterCluster| !any_reg_selected(spec, rc)
}

/// The registers of `cs` that `spec` selects, taken out in order; the
/// position of the first. `None` when a glob does not compile.
fn take_matching(cs: &mut Vec<RegisterCluster>, spec: &str) -> (r: Option<(Vec<Register>, Option<usize>)>)
    ensures
        r is None <==> !kind_compiles(old(cs)@, spec@, Kinds::Registers),
        r is None ==> *final(cs) == *old(cs),
        r matches Some((taken, place)) ==> {
            &&& final(cs)@ == old(cs)@.filter(keep_unselected(spec@))
            &&& taken@.len() == old(cs)@.len() - final(cs)@.len()
            &&& (place is None <==> taken@.len() == 0)
            &&& place matches Some(p) ==> p <= final(cs)@.len()
        },
{
    let flags = match select_flags(cs, spec, Kinds::Registers) {
        None => {
            return None;
        },
        Some(f) => f,
    };
    let ghost orig = cs@;
    let ghost keep = keep_unselected(spec@);
    let mut kept: Vec<RegisterCluster> = Vec::new();
    let mut taken: Vec<Register> = Vec::new();
    let mut place: Option<usize> = None;
    let n = cs.len();
    let mut j: usize = 0;
    while j < n
        invariant
            n == orig.len(),
            flags@.len() == n,
            forall|q: int| 0 <= q < n ==> flags@[q] == !keep(#[trigger] orig[q]),
            keep == keep_unselected(spec@),
            j <= n,
            cs@ == orig.skip(j as int),
            kept@ == orig.take(j as int).filter(keep),
            taken@.len() + kept@.len() == j,
            place is None <==> taken@.len() == 0,
            place matches Some(p) ==> p <= kept@.len(),
        decreases n - j,
    {
        assert(cs@[0] == orig[j as int]);
        assert(flags@[j as int] == !keep(orig[j as int]));
        let rc = cs.remove(0);
        proof {
            orig.take(j as int).lemma_filter_push(orig[j as int], keep);
            assert(orig.take(j + 1) =~= orig.take(j as int).push(orig[j as int]));
        }
        if flags[j] {
            match rc {
                RegisterCluster::Register(x) => {
                    if place.is_none() {
                        place = Some(kept.len());
                    }
                    taken.push(x);
                },
                RegisterCluster::Cluster(_) => {},
            }
        } else {
            kept.push(rc);
        }
        j = j + 1;
        assert(cs@ =~= orig.skip(j as int));
    }
    assert(orig.take(j as int) =~= orig);
    *cs = kept;
    Some((taken, place))
}

/// Two array descriptions are the same.
fn dim_same(a: &DimElement, b: &DimElement) -> (r: bool) {
    if a.dim != b.dim || a.dim_increment != b.dim_increment {
        return false;
    }
    let names_same = match (&a.dim_name, &b.dim_name) {
        (Some(x), Some(y)) => str_eq(x.as_str(), y.as_str()),
        (None, None) => true,
        _ => false,
    };
    if !names_same {
        return false;
    }
    match (&a.dim_index, &b.dim_index) {
        (Some(x), Some(y)) => strings_same(x, y),
        (None, None) => true,
        _ => false,
    }
}

/// Two lists of texts are the same.
fn strings_same(a: &Vec<String>, b: &Vec<String>) -> (r: bool)
    ensures
        r == (texts_of(a@) == texts_of(b@)),
{
    if a.len() != b.len() {
        assert(texts_of(a@).len() != texts_of(b@).len());
        return false;
    }
    let mut i: usize = 0;
    while i < a.len()
        invariant
            a@.len() == b@.len(),
            i <= a@.len(),
            forall|j: int| 0 <= j < i ==> a@[j]@ == b@[j]@,
        decreases a.len() - i,
    {
        if !str_eq(a[i].as_str(), b[i].as_str()) {
            assert(texts_of(a@)[i as int] != texts_of(b@)[i as int]);
            return false;
        }
        i = i + 1;
    }
    assert(texts_of(a@) =~= texts_of(b@));
    true
}

/// The checks of an array group of registers collected into a cluster:
/// all arrays with the same description, or all plain; gives the index
/// texts of the group.
fn group_index(group: &Vec<Register>, rspec: &str) -> (r: Result<Vec<String>, PatchError>)
    requires
        group@.len() > 0,
    ensures
        r matches Ok(v) ==> v@.len() == group@.len(),
{
    match &group[0].dim {
        Some(rdim) => {
            let mut k: usize = 1;
            while k < group.len()
                decreases group.len() - k,
            {
                let same = match &group[k].dim {
                    Some(d) => dim_same(d, rdim),
                    None => false,
                };
                if !same {
                    return Err(PatchError::Invalid(copy_str(rspec)));
                }
                k = k + 1;
            }
        },
        None => {
            let mut k: usize = 1;
            while k < group.len()
                decreases group.len() - k,
            {
                if group[k].dim.is_some() {
                    return Err(PatchError::Invalid(copy_str(rspec)));
                }
                k = k + 1;
            }
        },
    }
    let mut out: Vec<String> = Vec::new();
    let mut k: usize = 0;
    while k < group.len()
        invariant
            k <= group@.len(),
            out@.len() == k,
        decreases group.len() - k,
    {
        let name = group[k].name.as_str();
        let sub = match crate::patch::names::try_matchsubspec(name, rspec) {
            Some(Some(m)) => m,
            _ => {
                return Err(PatchError::Invalid(copy_str(rspec)));
            },
        };
        let (li, ri) = match spec_ind(sub.as_str()) {
            Some(x) => x,
            None => {
                return Err(PatchError::Invalid(sub));
            },
        };
        let m = name.unicode_len();
        if m < li || m - li < ri {
            return Err(PatchError::Invalid(copy_str(name)));
        }
        out.push(copy_str(name.substring_char(li, m - ri)));
        k = k + 1;
    }
    Ok(out)
}

/// A group of registers to collect into a cluster: the rule's name for it,
/// its own rule, and the registers.
struct Group {
    rspec: String,
    at: usize,
    regs: Vec<Register>,
}

/// The text `Cluster <name>, containing <names>`.
fn cluster_description(cname: &str, groups: &Vec<Group>) -> String {
    let mut out = copy_str("Cluster ");
    out.append(cname);
    out.append(", containing ");
    let mut i: usize = 0;
    while i < groups.len()
        decreases groups.len() - i,
    {
        if i > 0 {
            out.append(", ");
        }
        out.append(groups[i].rspec.as_str());
        i = i + 1;
    }
    out
}

/// Whether `cmod`'s key `k` is a rule of the cluster rather than the name of
/// registers to collect.
fn is_cluster_rule_key(k: &str) -> bool {
    str_eq(k, "description") || str_eq(k, "dimIncrement") || is_block_keyword(k, false)
}

/// Whether `s` holds `%s`.
fn contains_pct_s(s: &str) -> bool {
    let cs = crate::text::chars_of(s);
    let mut i: usize = 0;
    while i < cs.len()
        decreases cs.len() - i,
    {
        if i + 1 < cs.len() && cs[i] == '%' && cs[i + 1] == 's' {
            return true;
        }
        i = i + 1;
    }
    false
}

/// Collect registers in peripheral into clusters
#[verifier::loop_isolation(false)]
pub fn collect_in_cluster(
    regs: &mut Vec<RegisterCluster>,
    path: &BlockPath,
    cname: &str,
    cmod: &YamlHash,
    config: &Config,
) -> (r: Result<(), PatchError>)
    ensures
        r is Ok ==> has_cluster_named(final(regs)@, cname@),
    decreases hash_size(cmod), 2int,
{
    let mut groups: Vec<Group> = Vec::new();
    let mut dim: usize = 0;
    let mut have_first = false;
    let mut dim_index: Vec<String> = Vec::new();
    let mut dim_increment: u32 = match yaml_err(cmod.get_u32("dimIncrement"))? {
        Some(d) => d,
        None => 0,
    };
    let mut offsets: Vec<u32> = Vec::new();
    let mut place: usize = usize::MAX;
    let single = !contains_pct_s(cname);
    let mut e: usize = 0;
    while e < cmod.entries.len()
        invariant
            e <= cmod.entries@.len(),
            forall|q: int| 0 <= q < groups@.len() ==> (#[trigger] groups@[q]).regs@.len() > 0,
            forall|q: int| 0 <= q < groups@.len() ==> (#[trigger] groups@[q]).at < cmod.entries@.len(),
            forall|q: int| 0 <= q < offsets@.len() - 1 ==> offsets@[q] <= #[trigger] offsets@[q + 1],
        decreases cmod.entries.len() - e,
    {
        let key = yaml_err(cmod.entries[e].0.str())?;
        if is_cluster_rule_key(key) {
            e = e + 1;
            continue;
        }
        let (rspec, ignore) = key.spec();
        let (mut group, gplace) = match take_matching(regs, rspec) {
            None => {
                return Err(PatchError::InvalidSpec(copy_str(rspec)));
            },
            Some(x) => x,
        };
        match gplace {
            Some(p) => {
                if p < place {
                    place = p;
                }
            },
            None => {},
        }
        if group.len() == 0 {
            if ignore {
                e = e + 1;
                continue;
            }
            return Err(PatchError::NotFound(copy_str(rspec)));
        }
        if single {
            if group.len() > 1 {
                return Err(PatchError::Invalid(copy_str(rspec)));
            }
        } else {
            group = crate::patch::collect_regs::sort_registers(group);
            let new_index = group_index(&group, rspec)?;
            if have_first {
                if dim != group.len() {
                    return Err(PatchError::Invalid(copy_str(rspec)));
                }
                if !strings_same(&dim_index, &new_index) {
                    return Err(PatchError::Invalid(copy_str(rspec)));
                }
            } else {
                dim = group.len();
                dim_index = new_index;
                offsets = crate::patch::collect_regs::reg_offsets_vec(&group);
                assert(crate::patch::collect_regs::regs_sorted(group@));
                assert forall|q: int| 0 <= q < offsets@.len() - 1 implies offsets@[q] <= #[trigger] offsets@[q + 1] by {
                    assert(group@[q].address_offset <= group@[q + 1].address_offset);
                }
                if dim > 1 {
                    dim_increment = offsets[1] - offsets[0];
                }
                have_first = true;
            }
            if !check_offsets(offsets.as_slice(), dim_increment) {
                return Err(PatchError::Invalid(copy_str(rspec)));
            }
            if !crate::patch::collect_regs::masks_agree(&group) {
                return Err(PatchError::Invalid(copy_str(rspec)));
            }
        }
        // A later rule for the same registers takes the place of an earlier one.
        let mut q: usize = 0;
        while q < groups.len()
            invariant
                q <= groups@.len(),
                e < cmod.entries@.len(),
                group@.len() > 0,
                forall|j: int| 0 <= j < groups@.len() ==> (#[trigger] groups@[j]).regs@.len() > 0,
                forall|j: int| 0 <= j < groups@.len() ==> (#[trigger] groups@[j]).at < cmod.entries@.len(),
            decreases groups.len() - q,
        {
            if str_eq(groups[q].rspec.as_str(), rspec) {
                groups.remove(q);
            } else {
                q = q + 1;
            }
        }
        groups.push(Group { rspec: copy_str(rspec), at: e, regs: group });
        e = e + 1;
    }
    if groups.len() == 0 {
        return Err(PatchError::NotFound(copy_str(cname)));
    }
    let mut address_offset: u32 = groups[0].regs[0].address_offset;
    let mut k: usize = 1;
    while k < groups.len()
        decreases groups.len() - k,
    {
        if groups[k].regs[0].address_offset < address_offset {
            address_offset = groups[k].regs[0].address_offset;
        }
        k = k + 1;
    }
    let description = match yaml_err(cmod.get_str("description"))? {
        Some(d) => copy_str(d),
        None => cluster_description(cname, &groups),
    };
    let cfg = Config {
        show_patch_on_error: config.show_patch_on_error,
        enum_derive: config.enum_derive,
        update_fields: true,
    };
    let cpath = new_cluster_path(path, cname);
    let mut children: Vec<RegisterCluster> = Vec::new();
    while groups.len() > 0
        invariant
            forall|q: int| 0 <= q < groups@.len() ==> (#[trigger] groups@[q]).regs@.len() > 0,
            forall|q: int| 0 <= q < groups@.len() ==> (#[trigger] groups@[q]).at < cmod.entries@.len(),
        decreases groups.len(),
    {
        assert(groups@[0].regs@.len() > 0);
        let Group { rspec, at, mut regs } = groups.remove(0);
        let rmod = yaml_err(cmod.entries[at].1.hash())?;
        let mut reg = regs.swap_remove(0);
        reg.process(rmod, &cpath, &cfg)?;
        if single {
            match yaml_err(rmod.get_str("name"))? {
                Some(n) => {
                    reg.name = copy_str(n);
                },
                None => {},
            }
        } else {
            reg.name = match yaml_err(rmod.get_str("name"))? {
                Some(n) => copy_str(n),
                None => {
                    let (li, ri) = match spec_ind(rspec.as_str()) {
                        Some(x) => x,
                        None => {
                            return Err(PatchError::Invalid(rspec));
                        },
                    };
                    let m = rspec.as_str().unicode_len();
                    let mut n = copy_str(rspec.as_str().substring_char(0, li));
                    n.append(rspec.as_str().substring_char(m - ri, m));
                    n
                },
            };
            match yaml_err(rmod.get_str("description"))? {
                Some(d) => {
                    reg.description = Some(copy_str(d));
                },
                None => {},
            }
        }
        if reg.address_offset < address_offset {
            return Err(PatchError::Invalid(reg.name));
        }
        reg.address_offset = reg.address_offset - address_offset;
        if !single && reg.address_offset >= dim_increment {
            return Err(PatchError::Invalid(reg.name));
        }
        children.push(RegisterCluster::Register(reg));
    }
    let mut cluster = Cluster {
        name: copy_str(cname),
        description: if description.as_str().unicode_len() == 0 { None } else { Some(description) },
        alternate_cluster: None,
        header_struct_name: None,
        address_offset,
        default_register_properties: crate::model::RegisterProperties {
            size: None,
            access: None,
            protection: None,
            reset_value: None,
            reset_mask: None,
        },
        children,
        derived_from: None,
        dim: if single {
            None
        } else {
            Some(
                DimElement {
                    dim: #[verifier::truncate] (dim as u32),
                    dim_increment,
                    dim_index: Some(dim_index),
                    dim_name: None,
                },
            )
        },
    };
    cluster.pre_process(cmod, path, &cfg)?;
    cluster.post_process(cmod, path, &cfg)?;
    let ghost cname_v = cname@;
    assert(cluster.name@ == cname@);
    let pos = if place <= regs.len() {
        place
    } else {
        regs.len()
    };
    regs.insert(pos, RegisterCluster::Cluster(cluster));
    assert(regs@[pos as int] is Cluster && rc_name(regs@[pos as int]) == cname@);
    Ok(())
}

/// The keys `_strip`, `_strip_end`, `_prefix` and `_suffix`.
pub open spec fn k_strip() -> Seq<char> {
    seq!['_', 's', 't', 'r', 'i', 'p']
}

pub open spec fn k_strip_end() -> Seq<char> {
    seq!['_', 's', 't', 'r', 'i', 'p', '_', 'e', 'n', 'd']
}

pub open spec fn k_prefix() -> Seq<char> {
    seq!['_', 'p', 'r', 'e', 'f', 'i', 'x']
}

pub open spec fn k_suffix() -> Seq<char> {
    seq!['_', 's', 'u', 'f', 'f', 'i', 'x']
}

/// `n` after stripping each leading text of `ts`, in turn.
pub open spec fn strip_all(ts: Seq<Seq<char>>, n: Seq<char>) -> Seq<char>
    decreases ts.len(),
{
    if ts.len() == 0 {
        n
    } else {
        stripped_start(ts.last(), strip_all(ts.drop_last(), n))
    }
}

/// `n` after stripping each trailing text of `ts`, in turn.
pub open spec fn strip_end_all(ts: Seq<Seq<char>>, n: Seq<char>) -> Seq<char>
    decreases ts.len(),
{
    if ts.len() == 0 {
        n
    } else {
        stripped_end(ts.last(), strip_end_all(ts.drop_last(), n))
    }
}

/// The text under key `k` of the rules, if it is a text.
pub open spec fn text_under(cmod: Seq<(YamlV, YamlV)>, k: Seq<char>) -> Option<Seq<char>> {
    match entry(cmod, k) {
        Some(YamlV::Str(t)) => Some(t),
        _ => None,
    }
}

/// A name after the leading strips `ss`, the trailing strips `es`, then the
/// prefix and the suffix, where there are any.
pub open spec fn stage_name(
    ss: Seq<Seq<char>>,
    es: Seq<Seq<char>>,
    pfx: Option<Seq<char>>,
    sfx: Option<Seq<char>>,
    n: Seq<char>,
) -> Seq<char> {
    let b = strip_end_all(es, strip_all(ss, n));
    let c = match pfx {
        Some(p) => p + b,
        None => b,
    };
    match sfx {
        Some(x) => c + x,
        None => c,
    }
}

/// Member `b` is member `a` renamed in these stages: a register by all of
/// them, a cluster only by the strips.
pub open spec fn staged(
    a: RegisterCluster,
    b: RegisterCluster,
    ss: Seq<Seq<char>>,
    es: Seq<Seq<char>>,
    pfx: Option<Seq<char>>,
    sfx: Option<Seq<char>>,
) -> bool {
    match (a, b) {
        (RegisterCluster::Register(x), RegisterCluster::Register(y)) => reg_renamed(
            x,
            y,
            |n: Seq<char>| stage_name(ss, es, pfx, sfx, n),
        ),
        (RegisterCluster::Cluster(x), RegisterCluster::Cluster(y)) => cluster_renamed(
            x,
            y,
            |n: Seq<char>| stage_name(ss, es, None, None, n),
        ),
        _ => false,
    }
}

/// Whether the strip, prefix and suffix rules of `cmod` can all be applied:
/// every strip glob compiles and the prefix and suffix are texts.
pub open spec fn strip_rules_ok(cmod: Seq<(YamlV, YamlV)>) -> bool {
    &&& forall|k: int|
        0 <= k < listed(cmod, k_strip()).len() ==> plain_glob_ok(#[trigger] listed(cmod, k_strip())[k] + seq!['*'])
    &&& forall|k: int|
        0 <= k < listed(cmod, k_strip_end()).len() ==> plain_glob_ok(seq!['*'] + #[trigger] listed(cmod, k_strip_end())[k])
    &&& (entry(cmod, k_prefix()) is None || entry(cmod, k_prefix()) matches Some(YamlV::Str(_)))
    &&& (entry(cmod, k_suffix()) is None || entry(cmod, k_suffix()) matches Some(YamlV::Str(_)))
}

/// Member `b` is member `a` after the strip, prefix and suffix rules of
/// `cmod`.
pub open spec fn renamed_by_rules(a: RegisterCluster, b: RegisterCluster, cmod: Seq<(YamlV, YamlV)>) -> bool {
    staged(
        a,
        b,
        listed(cmod, k_strip()),
        listed(cmod, k_strip_end()),
        text_under(cmod, k_prefix()),
        text_under(cmod, k_suffix()),
    )
}

/// A key of the renaming rules: `_strip`, `_strip_end`, `_prefix` or
/// `_suffix`.
pub open spec fn rename_key(k: Seq<char>) -> bool {
    k == k_strip() || k == k_strip_end() || k == k_prefix() || k == k_suffix()
}

/// The entry's key is a key of the renaming rules.
pub open spec fn renames_entry(e: (YamlV, YamlV)) -> bool {
    e.0 matches YamlV::Str(k) && rename_key(k)
}

/// Rules made of renaming rules alone.
pub open spec fn rename_only(h: Seq<(YamlV, YamlV)>) -> bool {
    forall|i: int| 0 <= i < h.len() ==> #[trigger] renames_entry(h[i])
}

/// Renaming rules alone hold no other key.
pub proof fn lemma_rename_only_absent(h: Seq<(YamlV, YamlV)>, k: Seq<char>)
    requires
        rename_only(h),
        !rename_key(k),
    ensures
        entry(h, k) is None,
    decreases h.len(),
{
    if h.len() > 0 {
        assert forall|i: int| 0 <= i < h.drop_last().len() implies #[trigger] renames_entry(h.drop_last()[i]) by {
            assert(h.drop_last()[i] == h[i]);
            assert(renames_entry(h[i]));
        }
        lemma_rename_only_absent(h.drop_last(), k);
        assert(renames_entry(h[h.len() - 1]));
        assert(h.last().0 != YamlV::Str(k));
    }
}

/// Renaming rules alone hold none of the keys `ks`.
proof fn lemma_rename_only_absent_str(h: Seq<(YamlV, YamlV)>, k: &str)
    requires
        rename_only(h),
        !rename_key(k@),
    ensures
        entry(h, k@) is None,
{
    lemma_rename_only_absent(h, k@);
}

/// Renaming twice is renaming by the composed change.
proof fn lemma_reg_renamed_compose(
    x: Register,
    m: Register,
    y: Register,
    f: spec_fn(Seq<char>) -> Seq<char>,
    g: spec_fn(Seq<char>) -> Seq<char>,
    h: spec_fn(Seq<char>) -> Seq<char>,
)
    requires
        reg_renamed(x, m, f),
        reg_renamed(m, y, g),
        forall|n: Seq<char>| #[trigger] h(n) == g(f(n)),
    ensures
        reg_renamed(x, y, h),
{
    assert(h(x.name@) == g(f(x.name@)));
    match x.display_name {
        Some(d) => {
            assert(h(d@) == g(f(d@)));
        },
        None => {},
    }
    match x.alternate_register {
        Some(d) => {
            assert(h(d@) == g(f(d@)));
        },
        None => {},
    }
}

proof fn lemma_cluster_renamed_compose(
    x: Cluster,
    m: Cluster,
    y: Cluster,
    f: spec_fn(Seq<char>) -> Seq<char>,
    g: spec_fn(Seq<char>) -> Seq<char>,
    h: spec_fn(Seq<char>) -> Seq<char>,
)
    requires
        cluster_renamed(x, m, f),
        cluster_renamed(m, y, g),
        forall|n: Seq<char>| #[trigger] h(n) == g(f(n)),
    ensures
        cluster_renamed(x, y, h),
{
    assert(h(x.name@) == g(f(x.name@)));
    match x.header_struct_name {
        Some(d) => {
            assert(h(d@) == g(f(d@)));
        },
        None => {},
    }
    match x.alternate_cluster {
        Some(d) => {
            assert(h(d@) == g(f(d@)));
        },
        None => {},
    }
}

/// A member is renamed by no stage at all.
proof fn lemma_staged_start(a: RegisterCluster)
    ensures
        staged(a, a, Seq::empty(), Seq::empty(), None, None),
{
    match a {
        RegisterCluster::Register(x) => {
            assert forall|n: Seq<char>| stage_name(Seq::empty(), Seq::empty(), None, None, n) == n by {}
        },
        RegisterCluster::Cluster(x) => {
            assert forall|n: Seq<char>| stage_name(Seq::empty(), Seq::empty(), None, None, n) == n by {}
        },
    }
}

/// One more renaming of the members extends the stages.
proof fn lemma_staged_step(
    a: RegisterCluster,
    m: RegisterCluster,
    b: RegisterCluster,
    ss: Seq<Seq<char>>,
    es: Seq<Seq<char>>,
    pfx: Option<Seq<char>>,
    sfx: Option<Seq<char>>,
    how: Rename,
    t: Seq<char>,
)
    requires
        staged(a, m, ss, es, pfx, sfx),
        rc_renamed(m, b, |s: Seq<char>| renamed_text(how, t, s), uses_glob(how)),
        how is StripStart ==> es.len() == 0 && pfx is None && sfx is None,
        how is StripEnd ==> pfx is None && sfx is None,
        how is Prefix ==> pfx is None && sfx is None,
        how is Suffix ==> sfx is None,
    ensures
        match how {
            Rename::StripStart => staged(a, b, ss.push(t), es, pfx, sfx),
            Rename::StripEnd => staged(a, b, ss, es.push(t), pfx, sfx),
            Rename::Prefix => staged(a, b, ss, es, Some(t), sfx),
            Rename::Suffix => staged(a, b, ss, es, pfx, Some(t)),
        },
{
    assert(ss.push(t).drop_last() =~= ss);
    assert(es.push(t).drop_last() =~= es);
    let g = |s: Seq<char>| renamed_text(how, t, s);
    let (ss2, es2, pfx2, sfx2) = match how {
        Rename::StripStart => (ss.push(t), es, pfx, sfx),
        Rename::StripEnd => (ss, es.push(t), pfx, sfx),
        Rename::Prefix => (ss, es, Some(t), sfx),
        Rename::Suffix => (ss, es, pfx, Some(t)),
    };
    match (a, m, b) {
        (RegisterCluster::Register(x), RegisterCluster::Register(xm), RegisterCluster::Register(y)) => {
            let f = |n: Seq<char>| stage_name(ss, es, pfx, sfx, n);
            let h = |n: Seq<char>| stage_name(ss2, es2, pfx2, sfx2, n);
            assert forall|n: Seq<char>| #[trigger] h(n) == g(f(n)) by {}
            lemma_reg_renamed_compose(x, xm, y, f, g, h);
        },
        (RegisterCluster::Cluster(x), RegisterCluster::Cluster(xm), RegisterCluster::Cluster(y)) => {
            let f = |n: Seq<char>| stage_name(ss, es, None, None, n);
            let h = |n: Seq<char>| stage_name(ss2, es2, None, None, n);
            if uses_glob(how) {
                assert forall|n: Seq<char>| #[trigger] h(n) == g(f(n)) by {}
                lemma_cluster_renamed_compose(x, xm, y, f, g, h);
            } else {
                assert forall|n: Seq<char>| #[trigger] h(n) == f(n) by {}
            }
        },
        _ => {},
    }
}

/// Renames every member by one change, keeping track of the stages.
fn rename_stage(
    cs: &mut Vec<RegisterCluster>,
    how: Rename,
    t: &str,
    Ghost(start): Ghost<Seq<RegisterCluster>>,
    Ghost(ss): Ghost<Seq<Seq<char>>>,
    Ghost(es): Ghost<Seq<Seq<char>>>,
    Ghost(pfx): Ghost<Option<Seq<char>>>,
    Ghost(sfx): Ghost<Option<Seq<char>>>,
) -> (r: Result<(), PatchError>)
    requires
        old(cs)@.len() == start.len(),
        forall|q: int| 0 <= q < start.len() ==> staged(start[q], #[trigger] old(cs)@[q], ss, es, pfx, sfx),
        how is StripStart ==> es.len() == 0 && pfx is None && sfx is None,
        how is StripEnd ==> pfx is None && sfx is None,
        how is Prefix ==> pfx is None && sfx is None,
        how is Suffix ==> sfx is None,
    ensures
        r is Err <==> uses_glob(how) && !plain_glob_ok(rename_glob(how, t@)),
        r is Ok ==> final(cs)@.len() == start.len() && forall|q: int|
            0 <= q < start.len() ==> match how {
                Rename::StripStart => staged(start[q], #[trigger] final(cs)@[q], ss.push(t@), es, pfx, sfx),
                Rename::StripEnd => staged(start[q], final(cs)@[q], ss, es.push(t@), pfx, sfx),
                Rename::Prefix => staged(start[q], final(cs)@[q], ss, es, Some(t@), sfx),
                Rename::Suffix => staged(start[q], final(cs)@[q], ss, es, pfx, Some(t@)),
            },
{
    let ghost before = cs@;
    let r = rename_members(cs, how, t);
    proof {
        if r is Ok {
            assert forall|q: int| 0 <= q < start.len() implies match how {
                Rename::StripStart => staged(start[q], #[trigger] cs@[q], ss.push(t@), es, pfx, sfx),
                Rename::StripEnd => staged(start[q], cs@[q], ss, es.push(t@), pfx, sfx),
                Rename::Prefix => staged(start[q], cs@[q], ss, es, Some(t@), sfx),
                Rename::Suffix => staged(start[q], cs@[q], ss, es, pfx, Some(t@)),
            } by {
                assert(staged(start[q], before[q], ss, es, pfx, sfx));
                lemma_staged_step(start[q], before[q], cs@[q], ss, es, pfx, sfx, how, t@);
            }
        }
    }
    r
}

/// Applies the strip, prefix and suffix rules of a block to its members:
/// each name loses the leading texts of `_strip` in turn, then the trailing
/// texts of `_strip_end`, then gets the `_prefix` in front and the `_suffix`
/// behind; clusters are only stripped (see [`renamed_by_rules`]).
fn strip_rules(cs: &mut Vec<RegisterCluster>, cmod: &YamlHash) -> (r: Result<(), PatchError>)
    ensures
        r is Ok <==> strip_rules_ok(cmod.view_pairs()),
        r is Ok ==> final(cs)@.len() == old(cs)@.len() && forall|q: int|
            0 <= q < old(cs)@.len() ==> renamed_by_rules(#[trigger] old(cs)@[q], final(cs)@[q], cmod.view_pairs()),
{
    proof {
        reveal_strlit("_strip");
        reveal_strlit("_strip_end");
        reveal_strlit("_prefix");
        reveal_strlit("_suffix");
        assert("_strip"@ =~= k_strip());
        assert("_strip_end"@ =~= k_strip_end());
        assert("_prefix"@ =~= k_prefix());
        assert("_suffix"@ =~= k_suffix());
    }
    let ghost cv = cmod.view_pairs();
    let ghost start = cs@;
    let ghost none: Seq<Seq<char>> = Seq::empty();
    proof {
        assert forall|q: int| 0 <= q < start.len() implies staged(start[q], #[trigger] cs@[q], none, none, None, None) by {
            lemma_staged_start(start[q]);
        }
    }
    let strips = cmod.str_vec_iter("_strip");
    let ghost ss = texts_of(strips@);
    assert(ss == listed(cv, k_strip()));
    let mut i: usize = 0;
    assert(ss.take(0) =~= none);
    while i < strips.len()
        invariant
            i <= strips@.len(),
            ss == texts_of(strips@),
            ss == listed(cmod.view_pairs(), k_strip()),
            none == Seq::<Seq<char>>::empty(),
            cs@.len() == start.len(),
            forall|q: int| 0 <= q < start.len() ==> staged(start[q], #[trigger] cs@[q], ss.take(i as int), none, None, None),
            forall|k: int| 0 <= k < i ==> plain_glob_ok(#[trigger] ss[k] + seq!['*']),
        decreases strips.len() - i,
    {
        assert(ss.take(i + 1) =~= ss.take(i as int).push(strips@[i as int]@));
        match rename_stage(
            cs,
            Rename::StripStart,
            strips[i].as_str(),
            Ghost(start),
            Ghost(ss.take(i as int)),
            Ghost(none),
            Ghost(None),
            Ghost(None),
        ) {
            Ok(()) => {},
            Err(e) => {
                assert(!plain_glob_ok(ss[i as int] + seq!['*']));
                return Err(e);
            },
        }
        i = i + 1;
    }
    assert(ss.take(i as int) =~= ss);
    let ends = cmod.str_vec_iter("_strip_end");
    let ghost es = texts_of(ends@);
    assert(es == listed(cv, k_strip_end()));
    let mut i: usize = 0;
    assert(es.take(0) =~= none);
    while i < ends.len()
        invariant
            i <= ends@.len(),
            es == texts_of(ends@),
            es == listed(cmod.view_pairs(), k_strip_end()),
            none == Seq::<Seq<char>>::empty(),
            cs@.len() == start.len(),
            forall|q: int| 0 <= q < start.len() ==> staged(start[q], #[trigger] cs@[q], ss, es.take(i as int), None, None),
            forall|k: int| 0 <= k < i ==> plain_glob_ok(seq!['*'] + #[trigger] es[k]),
        decreases ends.len() - i,
    {
        assert(es.take(i + 1) =~= es.take(i as int).push(ends@[i as int]@));
        match rename_stage(
            cs,
            Rename::StripEnd,
            ends[i].as_str(),
            Ghost(start),
            Ghost(ss),
            Ghost(es.take(i as int)),
            Ghost(None),
            Ghost(None),
        ) {
            Ok(()) => {},
            Err(e) => {
                assert(!plain_glob_ok(seq!['*'] + es[i as int]));
                return Err(e);
            },
        }
        i = i + 1;
    }
    assert(es.take(i as int) =~= es);
    let pfx = yaml_err(cmod.get_str("_prefix"))?;
    match pfx {
        Some(p) => {
            let _ = rename_stage(cs, Rename::Prefix, p, Ghost(start), Ghost(ss), Ghost(es), Ghost(None), Ghost(None));
        },
        None => {},
    }
    let ghost pv = text_under(cv, k_prefix());
    let sfx = yaml_err(cmod.get_str("_suffix"))?;
    match sfx {
        Some(p) => {
            let _ = rename_stage(cs, Rename::Suffix, p, Ghost(start), Ghost(ss), Ghost(es), Ghost(pv), Ghost(None));
        },
        None => {},
    }
    Ok(())
}

/// With a rule whose only renaming key is `_suffix: s`, every register ends
/// up with its old name followed by `s` and every cluster keeps its name.
pub proof fn law_suffix_renames(cmod: Seq<(YamlV, YamlV)>, s: Seq<char>, a: RegisterCluster, b: RegisterCluster)
    requires
        entry(cmod, k_strip()) is None,
        entry(cmod, k_strip_end()) is None,
        entry(cmod, k_prefix()) is None,
        entry(cmod, k_suffix()) == Some(YamlV::Str(s)),
        renamed_by_rules(a, b, cmod),
    ensures
        a is Register ==> b is Register && rc_name(b) == rc_name(a) + s,
        a is Cluster ==> b is Cluster && rc_name(b) == rc_name(a),
{
}

/// With a rule whose only renaming key is `_prefix: p`, every register ends
/// up with `p` followed by its old name and every cluster keeps its name.
pub proof fn law_prefix_renames(cmod: Seq<(YamlV, YamlV)>, p: Seq<char>, a: RegisterCluster, b: RegisterCluster)
    requires
        entry(cmod, k_strip()) is None,
        entry(cmod, k_strip_end()) is None,
        entry(cmod, k_prefix()) == Some(YamlV::Str(p)),
        entry(cmod, k_suffix()) is None,
        renamed_by_rules(a, b, cmod),
    ensures
        a is Register ==> b is Register && rc_name(b) == p + rc_name(a),
        a is Cluster ==> b is Cluster && rc_name(b) == rc_name(a),
{
}

/// One entry of a block's `_modify` rule, other than its interrupts.
fn modify_rule_entry(cs: &mut Vec<RegisterCluster>, key: &str, rmod: &YamlHash, bpath: &BlockPath) -> (r: Result<(), PatchError>) {
    if str_eq(key, "_registers") {
        let mut i: usize = 0;
        while i < rmod.entries.len()
            decreases rmod.entries.len() - i,
        {
            let rspec = yaml_err(rmod.entries[i].0.str())?;
            let val = yaml_err(rmod.entries[i].1.hash())?;
            modify_registers_in(cs, rspec, val, bpath)?;
            i = i + 1;
        }
        Ok(())
    } else if str_eq(key, "_clusters") {
        let mut i: usize = 0;
        while i < rmod.entries.len()
            decreases rmod.entries.len() - i,
        {
            let cspec = yaml_err(rmod.entries[i].0.str())?;
            let val = yaml_err(rmod.entries[i].1.hash())?;
            modify_clusters_in(cs, cspec, val, bpath)?;
            i = i + 1;
        }
        Ok(())
    } else {
        modify_child_in(cs, key, rmod, bpath)
    }
}

/// One entry of a block's `_add` rule, other than its interrupts.
fn add_rule_entry(cs: &mut Vec<RegisterCluster>, key: &str, radd: &YamlHash, bpath: &BlockPath) -> (r: Result<(), PatchError>) {
    if str_eq(key, "_registers") {
        let mut i: usize = 0;
        while i < radd.entries.len()
            decreases radd.entries.len() - i,
        {
            let rname = yaml_err(radd.entries[i].0.str())?;
            let val = yaml_err(radd.entries[i].1.hash())?;
            add_register_to(cs, rname, val, bpath)?;
            i = i + 1;
        }
        Ok(())
    } else if str_eq(key, "_clusters") {
        let mut i: usize = 0;
        while i < radd.entries.len()
            decreases radd.entries.len() - i,
        {
            let cname = yaml_err(radd.entries[i].0.str())?;
            let val = yaml_err(radd.entries[i].1.hash())?;
            add_cluster_to(cs, cname, val, bpath)?;
            i = i + 1;
        }
        Ok(())
    } else {
        add_register_to(cs, key, radd, bpath)
    }
}

/// The `_copy` rule of a block: each entry copies a register (under
/// `_registers`, several); copying clusters is not supported.
#[verifier::loop_isolation(false)]
fn copy_rule(cs: &mut Vec<RegisterCluster>, cmod: &YamlHash, bpath: &BlockPath) -> (r: Result<(), PatchError>)
    ensures
        rename_only(cmod.view_pairs()) ==> r is Ok && *final(cs) == *old(cs),
{
    proof {
        if rename_only(cmod.view_pairs()) {
            reveal_strlit("_copy");
            lemma_rename_only_absent(cmod.view_pairs(), "_copy"@);
        }
    }
    match cmod.hash_iter("_copy") {
        Some(h) => {
            let mut i: usize = 0;
            while i < h.entries.len()
                decreases h.entries.len() - i,
            {
                let rname = yaml_err(h.entries[i].0.str())?;
                let rcopy = yaml_err(h.entries[i].1.hash())?;
                if str_eq(rname, "_registers") {
                    let mut j: usize = 0;
                    while j < rcopy.entries.len()
                        decreases rcopy.entries.len() - j,
                    {
                        let name = yaml_err(rcopy.entries[j].0.str())?;
                        let val = yaml_err(rcopy.entries[j].1.hash())?;
                        copy_register_in(cs, name, val, bpath)?;
                        j = j + 1;
                    }
                } else if str_eq(rname, "_clusters") {
                    if rcopy.entries.len() > 0 {
                        let _name = yaml_err(rcopy.entries[0].0.str())?;
                        let _val = yaml_err(rcopy.entries[0].1.hash())?;
                        return Err(PatchError::Invalid(copy_str(rname)));
                    }
                } else {
                    copy_register_in(cs, rname, rcopy, bpath)?;
                }
                i = i + 1;
            }
        },
        None => {},
    }
    Ok(())
}

/// The `_derive` rule of a block: each entry makes registers derive from
/// another one (under `_registers`, several); deriving clusters is not
/// supported.
#[verifier::loop_isolation(false)]
fn derive_rule(cs: &mut Vec<RegisterCluster>, cmod: &YamlHash, bpath: &BlockPath) -> (r: Result<(), PatchError>)
    ensures
        rename_only(cmod.view_pairs()) ==> r is Ok && *final(cs) == *old(cs),
{
    proof {
        if rename_only(cmod.view_pairs()) {
            reveal_strlit("_derive");
            lemma_rename_only_absent(cmod.view_pairs(), "_derive"@);
        }
    }
    match cmod.hash_iter("_derive") {
        Some(h) => {
            let mut i: usize = 0;
            while i < h.entries.len()
                decreases h.entries.len() - i,
            {
                let rspec = yaml_err(h.entries[i].0.str())?;
                if str_eq(rspec, "_registers") {
                    let rd = yaml_err(h.entries[i].1.hash())?;
                    let mut j: usize = 0;
                    while j < rd.entries.len()
                        decreases rd.entries.len() - j,
                    {
                        let name = yaml_err(rd.entries[j].0.str())?;
                        derive_register_in(cs, name, &rd.entries[j].1, bpath)?;
                        j = j + 1;
                    }
                } else if str_eq(rspec, "_clusters") {
                    let rd = yaml_err(h.entries[i].1.hash())?;
                    if rd.entries.len() > 0 {
                        let _name = yaml_err(rd.entries[0].0.str())?;
                        return Err(PatchError::Invalid(copy_str(rspec)));
                    }
                } else {
                    derive_register_in(cs, rspec, &h.entries[i].1, bpath)?;
                }
                i = i + 1;
            }
        },
        None => {},
    }
    Ok(())
}

/// Expands the cluster `cname` of a peripheral as `opts` says; with
/// `present` false the peripheral has no list of members, which is an error.
fn expand_one(cs: &mut Vec<RegisterCluster>, present: bool, cname: &str, opts: &ExpandOpts) -> (r: Result<(), PatchError>) {
    if !present {
        return Err(PatchError::NotFound(copy_str(cname)));
    }
    expand_cluster_in(cs, cname, opts)
}

/// The options of one entry of `_expand_cluster`.
fn expand_options(h: Option<&YamlHash>) -> (r: Result<ExpandOpts, PatchError>) {
    let mut opts = ExpandOpts { pre: None, post: None, zeroindex: None, noprefix: None };
    match h {
        Some(h) => {
            let mut i: usize = 0;
            while i < h.entries.len()
                decreases h.entries.len() - i,
            {
                let key = yaml_err(h.entries[i].0.str())?;
                let val = &h.entries[i].1;
                if str_eq(key, "_preindex") {
                    opts.pre = Some(copy_str(yaml_err(val.str())?));
                } else if str_eq(key, "_postindex") {
                    opts.post = Some(copy_str(yaml_err(val.str())?));
                } else if str_eq(key, "_zeroindex") {
                    opts.zeroindex = Some(yaml_err(val.bool())?);
                } else if str_eq(key, "_noprefix") {
                    opts.noprefix = Some(yaml_err(val.bool())?);
                } else {
                    return Err(PatchError::Invalid(copy_str(key)));
                }
                i = i + 1;
            }
        },
        None => {},
    }
    Ok(opts)
}

/// The `_expand_cluster` rule of a peripheral: a cluster specification, a
/// list of them, or a mapping from each to its options.
#[verifier::loop_isolation(false)]
pub(crate) fn expand_cluster_rule(cs: &mut Vec<RegisterCluster>, present: bool, pmod: &YamlHash) -> (r: Result<(), PatchError>)
    ensures
        rename_only(pmod.view_pairs()) ==> r is Ok && *final(cs) == *old(cs),
{
    proof {
        if rename_only(pmod.view_pairs()) {
            reveal_strlit("_expand_cluster");
            lemma_rename_only_absent(pmod.view_pairs(), "_expand_cluster"@);
        }
    }
    match pmod.get_yaml("_expand_cluster") {
        None => Ok(()),
        Some(Yaml::String(cspec)) => {
            let opts = ExpandOpts { pre: None, post: None, zeroindex: None, noprefix: None };
            expand_one(cs, present, cspec.as_str(), &opts)
        },
        Some(Yaml::Array(items)) => {
            let mut i: usize = 0;
            while i < items.len()
                decreases items.len() - i,
            {
                let cname = yaml_err(items[i].str())?;
                let opts = ExpandOpts { pre: None, post: None, zeroindex: None, noprefix: None };
                expand_one(cs, present, cname, &opts)?;
                i = i + 1;
            }
            Ok(())
        },
        Some(Yaml::Hash(h)) => {
            let mut i: usize = 0;
            while i < h.entries.len()
                decreases h.entries.len() - i,
            {
                let sub = match h.entries[i].1.hash() {
                    Ok(x) => Some(x),
                    Err(_) => None,
                };
                let cname = yaml_err(h.entries[i].0.str())?;
                let opts = expand_options(sub)?;
                expand_one(cs, present, cname, &opts)?;
                i = i + 1;
            }
            Ok(())
        },
        Some(_) => Err(PatchError::Invalid(copy_str("_expand_cluster"))),
    }
}

impl Cluster {
    /// The rules of this cluster that change its members.
    pub fn pre_process(&mut self, cmod: &YamlHash, parent: &BlockPath, config: &Config) -> (r: Result<(), PatchError>)
        ensures
            same_but_children(*old(self), *final(self)),
            rename_only(cmod.view_pairs()) ==> (r is Ok <==> strip_rules_ok(cmod.view_pairs())) && (r is Ok
                ==> final(self).children@.len() == old(self).children@.len() && forall|q: int|
                0 <= q < old(self).children@.len() ==> renamed_by_rules(
                    #[trigger] old(self).children@[q],
                    final(self).children@[q],
                    cmod.view_pairs(),
                )),
            ({
                let o = delete_outcome(old(self).children@, true, cmod.view_pairs());
                &&& r is Ok ==> o.0
                &&& !o.0 ==> r is Err && final(self).children@ == o.1
            }),
    {
        let ghost start = *self;
        let cpath = new_cluster_path(parent, self.name.as_str());
        let mut cs: Vec<RegisterCluster> = Vec::new();
        std::mem::swap(&mut cs, &mut self.children);
        let r = pre_process_members(&mut cs, cmod, &cpath);
        self.children = cs;
        r
    }

    /// Work through a cluster, handling all registers
    pub fn process(&mut self, cmod: &YamlHash, parent: &BlockPath, config: &Config) -> (r: Result<(), PatchError>)
        ensures
            same_but_children(*old(self), *final(self)),
            rename_only(cmod.view_pairs()) ==> (r is Ok <==> strip_rules_ok(cmod.view_pairs())) && (r is Ok
                ==> final(self).children@.len() == old(self).children@.len() && forall|q: int|
                0 <= q < old(self).children@.len() ==> renamed_by_rules(
                    #[trigger] old(self).children@[q],
                    final(self).children@[q],
                    cmod.view_pairs(),
                )),
            ({
                let o = delete_outcome(old(self).children@, true, cmod.view_pairs());
                &&& r is Ok ==> o.0
                &&& !o.0 ==> r is Err && final(self).children@ == o.1
            }),
        decreases hash_size(cmod), 3int,
    {
        let ghost start = *self;
        self.pre_process(cmod, parent, config)?;
        let cpath = new_cluster_path(parent, self.name.as_str());
        let mut cs: Vec<RegisterCluster> = Vec::new();
        std::mem::swap(&mut cs, &mut self.children);
        let r = process_members(&mut cs, cmod, &cpath, config, false);
        self.children = cs;
        r?;
        self.post_process(cmod, parent, config)
    }

    /// The rules of this cluster that collect its registers into arrays and
    /// clusters.
    pub fn post_process(&mut self, cmod: &YamlHash, parent: &BlockPath, config: &Config) -> (r: Result<(), PatchError>)
        ensures
            same_but_children(*old(self), *final(self)),
            rename_only(cmod.view_pairs()) ==> r is Ok && final(self).children@ == old(self).children@,
        decreases hash_size(cmod), 1int,
    {
        let cpath = new_cluster_path(parent, self.name.as_str());
        let mut cs: Vec<RegisterCluster> = Vec::new();
        std::mem::swap(&mut cs, &mut self.children);
        let r = post_process_members(&mut cs, true, cmod, &cpath, config);
        self.children = cs;
        r
    }
}

/// The rules of a block that change its members, after `_delete`.
#[verifier::loop_isolation(false)]
pub(crate) fn pre_rules(cs: &mut Vec<RegisterCluster>, cmod: &YamlHash, bpath: &BlockPath, peripheral: bool) -> (r: Result<(), PatchError>)
    ensures
        rename_only(cmod.view_pairs()) ==> (r is Ok <==> strip_rules_ok(cmod.view_pairs())) && (r is Ok ==> final(cs)@.len()
            == old(cs)@.len() && forall|q: int|
            0 <= q < old(cs)@.len() ==> renamed_by_rules(#[trigger] old(cs)@[q], final(cs)@[q], cmod.view_pairs())),
{
    proof {
        if rename_only(cmod.view_pairs()) {
            reveal_strlit("_modify");
            reveal_strlit("_clear_fields");
            reveal_strlit("_add");
            lemma_rename_only_absent(cmod.view_pairs(), "_modify"@);
            lemma_rename_only_absent(cmod.view_pairs(), "_clear_fields"@);
            lemma_rename_only_absent(cmod.view_pairs(), "_add"@);
        }
    }
    copy_rule(cs, cmod, bpath)?;
    strip_rules(cs, cmod)?;
    let ghost renamed = *cs;
    match cmod.hash_iter("_modify") {
        Some(h) => {
            let mut i: usize = 0;
            while i < h.entries.len()
                invariant
                    !rename_only(cmod.view_pairs()),
                decreases h.entries.len() - i,
            {
                let rmod = yaml_err(h.entries[i].1.hash())?;
                let key = yaml_err(h.entries[i].0.str())?;
                if !(peripheral && str_eq(key, "_interrupts")) {
                    modify_rule_entry(cs, key, rmod, bpath)?;
                }
                i = i + 1;
            }
        },
        None => {},
    }
    assert(rename_only(cmod.view_pairs()) ==> *cs == renamed);
    let clears = cmod.str_vec_iter("_clear_fields");
    proof {
        if rename_only(cmod.view_pairs()) {
            assert(clears@.map_values(|x: String| x@).len() == 0);
        }
    }
    let mut i: usize = 0;
    while i < clears.len()
        invariant
            !rename_only(cmod.view_pairs()) || (clears@.len() == 0 && *cs == renamed),
        decreases clears.len() - i,
    {
        clear_fields_in(cs, clears[i].as_str())?;
        i = i + 1;
    }
    match cmod.hash_iter("_add") {
        Some(h) => {
            let mut i: usize = 0;
            while i < h.entries.len()
                invariant
                    !rename_only(cmod.view_pairs()),
                decreases h.entries.len() - i,
            {
                let radd = yaml_err(h.entries[i].1.hash())?;
                let key = yaml_err(h.entries[i].0.str())?;
                if !(peripheral && str_eq(key, "_interrupts")) {
                    add_rule_entry(cs, key, radd, bpath)?;
                }
                i = i + 1;
            }
        },
        None => {},
    }
    derive_rule(cs, cmod, bpath)
}

/// The rules of a cluster that change its members.
fn pre_process_members(cs: &mut Vec<RegisterCluster>, cmod: &YamlHash, bpath: &BlockPath) -> (r: Result<(), PatchError>)
    ensures
        rename_only(cmod.view_pairs()) ==> (r is Ok <==> strip_rules_ok(cmod.view_pairs())) && (r is Ok ==> final(cs)@.len()
            == old(cs)@.len() && forall|q: int|
            0 <= q < old(cs)@.len() ==> renamed_by_rules(#[trigger] old(cs)@[q], final(cs)@[q], cmod.view_pairs())),
        ({
            let o = delete_outcome(old(cs)@, true, cmod.view_pairs());
            &&& r is Ok ==> o.0
            &&& !o.0 ==> r is Err && final(cs)@ == o.1
        }),
{
    proof {
        if rename_only(cmod.view_pairs()) {
            reveal_strlit("_delete");
            lemma_rename_only_absent(cmod.view_pairs(), "_delete"@);
            assert("_delete"@ =~= k_delete());
        }
    }
    let ghost c0 = cs@;
    delete_rule(cs, true, cmod)?;
    assert(rename_only(cmod.view_pairs()) ==> cs@ == c0);
    pre_rules(cs, cmod, bpath, false)
}

/// The rules for single registers and clusters of a block: `_clusters`
/// (for clusters, before the others) and every key that is no keyword.
pub(crate) fn process_members(cs: &mut Vec<RegisterCluster>, cmod: &YamlHash, bpath: &BlockPath, config: &Config, peripheral: bool) -> (r: Result<(), PatchError>)
    ensures
        rename_only(cmod.view_pairs()) ==> r is Ok && *final(cs) == *old(cs),
    decreases hash_size(cmod), 2int,
{
    let ghost start = *cs;
    let n = cmod.entries.len();
    if !peripheral {
        process_clusters_rule(cs, cmod, bpath, config)?;
    }
    let mut i: usize = 0;
    while i < n
        invariant
            n == cmod.entries@.len(),
            rename_only(cmod.view_pairs()) ==> *cs == start,
        decreases n - i,
    {
        proof {
            if rename_only(cmod.view_pairs()) {
                crate::patch::yaml::lemma_yv_pairs(cmod.entries@);
                assert(renames_entry(cmod.view_pairs()[i as int]));
                assert(cmod.view_pairs()[i as int].0 == yv(cmod.entries@[i as int].0));
            }
        }
        let key = yaml_err(cmod.entries[i].0.str())?;
        if !is_block_keyword(key, peripheral) {
            let rcmod = yaml_err(cmod.entries[i].1.hash())?;
            proof {
                lemma_child_smaller(cmod, i as int, rcmod);
            }
            process_child_in(cs, key, rcmod, bpath, config)?;
        }
        i = i + 1;
    }
    Ok(())
}

/// The `_clusters` rule of a block: each cluster that a key selects is
/// worked through with its rules.
#[verifier::loop_isolation(false)]
pub(crate) fn process_clusters_rule(cs: &mut Vec<RegisterCluster>, cmod: &YamlHash, bpath: &BlockPath, config: &Config) -> (r: Result<(), PatchError>)
    ensures
        rename_only(cmod.view_pairs()) ==> r is Ok && *final(cs) == *old(cs),
    decreases hash_size(cmod), 1int,
{
    proof {
        if rename_only(cmod.view_pairs()) {
            reveal_strlit("_clusters");
            lemma_rename_only_absent(cmod.view_pairs(), "_clusters"@);
        }
    }
    let _n = cmod.entries.len();
    match cmod.hash_iter("_clusters") {
        Some(h) => {
            proof {
                reveal_strlit("_clusters");
                lemma_found_smaller(cmod, "_clusters"@, h.view_pairs());
            }
            let mut i: usize = 0;
            while i < h.entries.len()
                invariant
                    hash_size(h) < hash_size(cmod),
                decreases h.entries.len() - i,
            {
                let cspec = yaml_err(h.entries[i].0.str())?;
                let cm = yaml_err(h.entries[i].1.hash())?;
                proof {
                    lemma_child_smaller(h, i as int, cm);
                }
                process_cluster_in(cs, cspec, cm, bpath, config)?;
                i = i + 1;
            }
        },
        None => {},
    }
    Ok(())
}

/// The rules of a block that collect its registers into arrays and
/// clusters; with `present` false the block has no list of members, which
/// is an error for them.
#[verifier::loop_isolation(false)]
pub(crate) fn post_process_members(cs: &mut Vec<RegisterCluster>, present: bool, cmod: &YamlHash, bpath: &BlockPath, config: &Config) -> (r: Result<(), PatchError>)
    ensures
        rename_only(cmod.view_pairs()) ==> r is Ok && *final(cs) == *old(cs),
    decreases hash_size(cmod), 0int,
{
    proof {
        if rename_only(cmod.view_pairs()) {
            reveal_strlit("_expand_array");
            lemma_rename_only_absent(cmod.view_pairs(), "_expand_array"@);
            reveal_strlit("_array");
            lemma_rename_only_absent(cmod.view_pairs(), "_array"@);
            reveal_strlit("_cluster");
            lemma_rename_only_absent(cmod.view_pairs(), "_cluster"@);
        }
    }
    let _n = cmod.entries.len();
    match cmod.hash_iter("_expand_array") {
        Some(h) => {
            let mut i: usize = 0;
            while i < h.entries.len()
                decreases h.entries.len() - i,
            {
                let rspec = yaml_err(h.entries[i].0.str())?;
                let _rm = yaml_err(h.entries[i].1.hash())?;
                if !present {
                    return Err(PatchError::NotFound(copy_str(rspec)));
                }
                expand_array_in(cs, rspec)?;
                i = i + 1;
            }
        },
        None => {},
    }
    match cmod.hash_iter("_array") {
        Some(h) => {
            let mut i: usize = 0;
            while i < h.entries.len()
                decreases h.entries.len() - i,
            {
                let rspec = yaml_err(h.entries[i].0.str())?;
                let rm = yaml_err(h.entries[i].1.hash())?;
                if !present {
                    return Err(PatchError::NotFound(copy_str(rspec)));
                }
                crate::patch::collect_regs::collect_in_array(cs, bpath, rspec, rm, config)?;
                i = i + 1;
            }
        },
        None => {},
    }
    match cmod.hash_iter("_cluster") {
        Some(h) => {
            proof {
                reveal_strlit("_cluster");
                lemma_found_smaller(cmod, "_cluster"@, h.view_pairs());
            }
            let mut i: usize = 0;
            while i < h.entries.len()
                invariant
                    hash_size(h) < hash_size(cmod),
                decreases h.entries.len() - i,
            {
                let cname = yaml_err(h.entries[i].0.str())?;
                let cm = yaml_err(h.entries[i].1.hash())?;
                proof {
                    lemma_child_smaller(h, i as int, cm);
                }
                if !present {
                    return Err(PatchError::NotFound(copy_str(cname)));
                }
                collect_in_cluster(cs, bpath, cname, cm, config)?;
                i = i + 1;
            }
        },
        None => {},
    }
    Ok(())
}

/// Work through a register or cluster: the registers that `rcspec` selects
/// or, when there are none (and `rcspec` does not start with `?~`), the
/// clusters.
fn process_child_in(cs: &mut Vec<RegisterCluster>, rcspec: &str, rcmod: &YamlHash, bpath: &BlockPath, config: &Config) -> (r: Result<(), PatchError>)
    decreases hash_size(rcmod), 6int,
{
    let (spec, ignore) = rcspec.spec();
    let rflags = match select_flags(cs, spec, Kinds::Registers) {
        None => {
            return Err(PatchError::InvalidSpec(copy_str(spec)));
        },
        Some(f) => f,
    };
    let mut any = false;
    let mut k: usize = 0;
    while k < rflags.len()
        decreases rflags.len() - k,
    {
        if rflags[k] {
            any = true;
        }
        k = k + 1;
    }
    if !any && !ignore {
        return process_cluster_in(cs, rcspec, rcmod, bpath, config);
    }
    process_selected(cs, &rflags, rcmod, bpath, config)
}

/// Works through the members that `flags` marks with the rule `m`.
fn process_selected(cs: &mut Vec<RegisterCluster>, flags: &Vec<bool>, m: &YamlHash, bpath: &BlockPath, config: &Config) -> (r: Result<(), PatchError>)
    decreases hash_size(m), 4int,
{
    let n = cs.len();
    if flags.len() != n {
        return Ok(());
    }
    let mut i: usize = 0;
    while i < n
        invariant
            cs@.len() == n,
            flags@.len() == n,
        decreases n - i,
    {
        if flags[i] {
            let mut rc = cs.remove(i);
            let res = match &mut rc {
                RegisterCluster::Register(x) => x.process(m, bpath, config),
                RegisterCluster::Cluster(c) => c.process(m, bpath, config),
            };
            cs.insert(i, rc);
            res?;
        }
        i = i + 1;
    }
    Ok(())
}

/// Work through the clusters that `cspec` selects, handling all contents
fn process_cluster_in(cs: &mut Vec<RegisterCluster>, cspec: &str, cmod: &YamlHash, bpath: &BlockPath, config: &Config) -> (r: Result<(), PatchError>)
    decreases hash_size(cmod), 5int,
{
    let (spec, ignore) = cspec.spec();
    let flags = match select_flags(cs, spec, Kinds::Clusters) {
        None => {
            return Err(PatchError::InvalidSpec(copy_str(spec)));
        },
        Some(f) => f,
    };
    let mut any = false;
    let mut k: usize = 0;
    while k < flags.len()
        decreases flags.len() - k,
    {
        if flags[k] {
            any = true;
        }
        k = k + 1;
    }
    if !any && !ignore {
        return Err(PatchError::NotFound(copy_str(spec)));
    }
    process_selected(cs, &flags, cmod, bpath, config)
}

} // verus!
