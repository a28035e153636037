//! Merging an included patch document into the one that includes it.
use vstd::prelude::*;
use crate::patch::yaml::{Yaml, YamlHash, YamlV, first_key, lookup, yv, yv_seq, yv_pairs, yaml_eq, group_yaml_views};
use crate::patch::yaml_ext::{YamlError, YamlErrorV, yaml_clone};
use crate::text::str_eq;

verus! {

/// The key `_path`.
pub open spec fn path_key() -> Seq<char> {
    seq!['_', 'p', 'a', 't', 'h']
}

/// The key `_include`.
pub open spec fn include_key() -> Seq<char> {
    seq!['_', 'i', 'n', 'c', 'l', 'u', 'd', 'e']
}

/// `s` starts with `_`: the name of a rule rather than of an element.
pub open spec fn underscored(s: Seq<char>) -> bool {
    s.len() > 0 && s[0] == '_'
}

/// Some entry of `ps` has the key `k`.
pub open spec fn has_entry(ps: Seq<(YamlV, YamlV)>, k: YamlV) -> bool {
    first_key(ps, k) is Some
}

/// The key `[k, i]` under which a second entry for `k` is kept.
pub open spec fn indexed_key(k: YamlV, i: i64) -> YamlV {
    YamlV::Array(seq![k, YamlV::Integer(i)])
}

/// The first `i` from `j` on for which `[k, i]` is not a key of `ps`.
pub open spec fn free_from(ps: Seq<(YamlV, YamlV)>, k: YamlV, j: i64) -> Option<i64>
    decreases i64::MAX - j,
{
    if j >= i64::MAX {
        None
    } else if !has_entry(ps, indexed_key(k, j)) {
        Some(j)
    } else {
        free_from(ps, k, (j + 1) as i64)
    }
}

/// `ps` with `val` added under the first free key `[k, i]`.
pub open spec fn add_indexed(ps: Seq<(YamlV, YamlV)>, k: YamlV, val: YamlV) -> Seq<(YamlV, YamlV)> {
    match free_from(ps, k, 0) {
        Some(i) => ps.push((indexed_key(k, i), val)),
        None => ps,
    }
}

/// `ps` with `k` set to `v`, the entry moved to the end
/// (see [`YamlHash::insert`]).
pub open spec fn inserted(ps: Seq<(YamlV, YamlV)>, k: YamlV, v: YamlV) -> Seq<(YamlV, YamlV)> {
    match first_key(ps, k) {
        Some(i) => ps.remove(i as int).push((k, v)),
        None => ps.push((k, v)),
    }
}

/// The key `k` is `[name, n]` for a string `name` and an integer `n`.
pub open spec fn is_indexed_key(k: YamlV) -> bool {
    k matches YamlV::Array(a) && a.len() == 2 && a[0] is Str && a[1] is Integer
}

/// What merging the value `val` into the rule value `e` that the parent
/// already holds under an `_`-key gives (`None`: `e` stays).
pub open spec fn merged_rule(e: YamlV, val: YamlV) -> Option<YamlV> {
    if e == val {
        None
    } else {
        match (e, val) {
            (YamlV::Array(a), YamlV::Array(b)) => Some(YamlV::Array(a + b)),
            (YamlV::Array(a), YamlV::Str(_)) => if a.contains(val) {
                None
            } else {
                Some(YamlV::Array(a.push(val)))
            },
            (YamlV::Str(_), YamlV::Array(b)) => if b.contains(e) {
                None
            } else {
                Some(YamlV::Array(seq![e] + b))
            },
            _ => None,
        }
    }
}

/// Merging the entry `key: val` of the child into `ps`.
pub open spec fn merge_entry(ps: Seq<(YamlV, YamlV)>, key: YamlV, val: YamlV) -> Result<Seq<(YamlV, YamlV)>, YamlErrorV>
    decreases val,
{
    match key {
        YamlV::Str(k) => if k == path_key() || k == include_key() {
            Ok(ps)
        } else if has_entry(ps, key) && underscored(k) {
            let i = first_key(ps, key).unwrap() as int;
            let e = ps[i].1;
            match (e, val) {
                (YamlV::Hash(h), YamlV::Hash(c)) => if e == val {
                    Ok(ps)
                } else {
                    match merge_all(h, c) {
                        Ok(h2) => Ok(ps.update(i, (key, YamlV::Hash(h2)))),
                        Err(x) => Err(x),
                    }
                },
                (YamlV::Hash(_), _) => Err(YamlErrorV::NotHash(val)),
                _ => match merged_rule(e, val) {
                    Some(n) => Ok(ps.update(i, (key, n))),
                    None => Ok(ps),
                },
            }
        } else if has_entry(ps, key) {
            Ok(add_indexed(ps, key, val))
        } else {
            Ok(inserted(ps, key, val))
        },
        YamlV::Array(a) => if has_entry(ps, key) && is_indexed_key(key) {
            Ok(add_indexed(ps, a[0], val))
        } else {
            Ok(inserted(ps, key, val))
        },
        _ => Ok(inserted(ps, key, val)),
    }
}

/// Merging every entry of the child `c`, in order, into `ps`: the parent's
/// values win; a rule (an `_`-key) that both hold is merged, and a second
/// element of the same name is kept under `[name, i]`.
pub open spec fn merge_all(ps: Seq<(YamlV, YamlV)>, c: Seq<(YamlV, YamlV)>) -> Result<Seq<(YamlV, YamlV)>, YamlErrorV>
    decreases c,
{
    if c.len() == 0 {
        Ok(ps)
    } else {
        match merge_all(ps, c.drop_last()) {
            Ok(p2) => merge_entry(p2, c.last().0, c.last().1),
            Err(x) => Err(x),
        }
    }
}

proof fn lemma_first_key_some(ps: Seq<(YamlV, YamlV)>, k: YamlV)
    requires
        ps.len() <= usize::MAX,
    ensures
        first_key(ps, k) matches Some(i) ==> i < ps.len() && ps[i as int].0 == k,
    decreases ps.len(),
{
    if ps.len() > 0 {
        lemma_first_key_some(ps.drop_last(), k);
        if let Some(i) = first_key(ps.drop_last(), k) {
            assert(ps.drop_last()[i as int] == ps[i as int]);
        }
    }
}

proof fn lemma_free_from(ps: Seq<(YamlV, YamlV)>, k: YamlV, j: i64)
    ensures
        free_from(ps, k, j) matches Some(i) ==> !has_entry(ps, indexed_key(k, i)),
    decreases i64::MAX - j,
{
    if j < i64::MAX && has_entry(ps, indexed_key(k, j)) {
        lemma_free_from(ps, k, (j + 1) as i64);
    }
}

/// Whether `x` is among the items of `a`.
fn yaml_vec_contains(a: &Vec<Yaml>, x: &Yaml) -> (r: bool)
    ensures
        r == yv_seq(a@).contains(yv(*x)),
{
    proof {
        crate::patch::yaml::lemma_yv_seq(a@);
    }
    let mut i: usize = 0;
    while i < a.len()
        invariant
            i <= a@.len(),
            yv_seq(a@).len() == a@.len(),
            forall|j: int| 0 <= j < a@.len() ==> #[trigger] yv_seq(a@)[j] == yv(a@[j]),
            forall|j: int| 0 <= j < i ==> yv(#[trigger] a@[j]) != yv(*x),
        decreases a.len() - i,
    {
        if yaml_eq(&a[i], x) {
            assert(yv_seq(a@)[i as int] == yv(*x));
            return true;
        }
        i = i + 1;
    }
    proof {
        if yv_seq(a@).contains(yv(*x)) {
            let j = choose|j: int| 0 <= j < yv_seq(a@).len() && yv_seq(a@)[j] == yv(*x);
            assert(yv(a@[j]) == yv(*x));
        }
    }
    false
}

/// The key `[k, i]` as a node.
fn make_indexed_key(k: &Yaml, i: i64) -> (r: Yaml)
    ensures
        yv(r) == indexed_key(yv(*k), i),
{
    broadcast use group_yaml_views;
    let mut v: Vec<Yaml> = Vec::new();
    v.push(yaml_clone(k));
    v.push(Yaml::Integer(i));
    assert(yv_seq(v@) =~= seq![yv(*k), YamlV::Integer(i)]);
    Yaml::Array(v)
}

/// The first free index for `k` in `parent` (see [`free_from`]).
fn find_free(parent: &YamlHash, k: &Yaml) -> (r: Option<i64>)
    ensures
        r == free_from(parent.view_pairs(), yv(*k), 0),
{
    let mut i: i64 = 0;
    while i < i64::MAX
        invariant
            0 <= i <= i64::MAX,
            free_from(parent.view_pairs(), yv(*k), 0) == free_from(parent.view_pairs(), yv(*k), i),
        decreases i64::MAX - i,
    {
        let key = make_indexed_key(k, i);
        if !parent.contains_key(&key) {
            return Some(i);
        }
        i = i + 1;
    }
    None
}

/// Adds `val` under the first free key `[k, i]` (see [`add_indexed`]).
fn add_indexed_exec(parent: &mut YamlHash, k: &Yaml, val: &Yaml)
    ensures
        final(parent).view_pairs() == add_indexed(old(parent).view_pairs(), yv(*k), yv(*val)),
{
    match find_free(parent, k) {
        Some(i) => {
            proof {
                lemma_free_from(old(parent).view_pairs(), yv(*k), 0);
            }
            let key = make_indexed_key(k, i);
            parent.insert(key, yaml_clone(val));
        },
        None => {},
    }
}

/// Whether the node is the key `[name, n]` (see [`is_indexed_key`]); gives
/// the name.
fn indexed_key_name(key: &Yaml) -> (r: Option<&Yaml>)
    ensures
        r is Some <==> is_indexed_key(yv(*key)),
        r matches Some(n) ==> yv(*n) == yv_seq(key->Array_0@)[0],
{
    match key {
        Yaml::Array(a) => {
            proof {
                crate::patch::yaml::lemma_yv_seq(a@);
            }
            if a.len() == 2 {
                match (&a[0], &a[1]) {
                    (Yaml::String(_), Yaml::Integer(_)) => Some(&a[0]),
                    _ => None,
                }
            } else {
                None
            }
        },
        _ => None,
    }
}

/// Sets the value of entry `i` of `parent` to `v`.
fn set_value(parent: &mut YamlHash, i: usize, v: Yaml)
    requires
        i < old(parent).entries@.len(),
    ensures
        final(parent).view_pairs() == old(parent).view_pairs().update(
            i as int,
            (old(parent).view_pairs()[i as int].0, yv(v)),
        ),
{
    broadcast use group_yaml_views;
    let ghost before = parent.entries@;
    let (k, _) = parent.entries.remove(i);
    parent.entries.insert(i, (k, v));
    assert(yv_pairs(parent.entries@) =~= yv_pairs(before).update(i as int, (yv_pairs(before)[i as int].0, yv(v))));
}

/// The items of `a` followed by those of `b`.
fn concat_items(a: &Vec<Yaml>, b: &Vec<Yaml>) -> (r: Vec<Yaml>)
    ensures
        yv_seq(r@) == yv_seq(a@) + yv_seq(b@),
{
    broadcast use group_yaml_views;
    let mut out: Vec<Yaml> = Vec::new();
    let mut i: usize = 0;
    while i < a.len()
        invariant
            i <= a@.len(),
            yv_seq(out@) == yv_seq(a@).take(i as int),
        decreases a.len() - i,
    {
        let ghost before = out@;
        out.push(yaml_clone(&a[i]));
        assert(out@.drop_last() =~= before);
        proof {
            crate::patch::yaml::lemma_yv_seq(out@);
            crate::patch::yaml::lemma_yv_seq(before);
            crate::patch::yaml::lemma_yv_seq(a@);
        }
        i = i + 1;
        assert(yv_seq(out@) =~= yv_seq(a@).take(i as int));
    }
    let mut j: usize = 0;
    while j < b.len()
        invariant
            i == a@.len(),
            j <= b@.len(),
            yv_seq(out@) == yv_seq(a@) + yv_seq(b@).take(j as int),
        decreases b.len() - j,
    {
        let ghost before = out@;
        out.push(yaml_clone(&b[j]));
        assert(out@.drop_last() =~= before);
        proof {
            crate::patch::yaml::lemma_yv_seq(out@);
            crate::patch::yaml::lemma_yv_seq(before);
            crate::patch::yaml::lemma_yv_seq(b@);
        }
        j = j + 1;
        assert(yv_seq(out@) =~= yv_seq(a@) + yv_seq(b@).take(j as int));
    }
    proof {
        crate::patch::yaml::lemma_yv_seq(a@);
        crate::patch::yaml::lemma_yv_seq(b@);
    }
    assert(yv_seq(a@).take(a@.len() as int) =~= yv_seq(a@));
    assert(yv_seq(b@).take(b@.len() as int) =~= yv_seq(b@));
    out
}

/// What merging `val` into the rule value `e` gives (see [`merged_rule`]).
fn merged_rule_exec(e: &Yaml, val: &Yaml) -> (r: Option<Yaml>)
    ensures
        match merged_rule(yv(*e), yv(*val)) {
            Some(n) => r matches Some(x) && yv(x) == n,
            None => r is None,
        },
{
    broadcast use group_yaml_views;
    if yaml_eq(e, val) {
        return None;
    }
    match (e, val) {
        (Yaml::Array(a), Yaml::Array(b)) => Some(Yaml::Array(concat_items(a, b))),
        (Yaml::Array(a), Yaml::String(_)) => {
            if yaml_vec_contains(a, val) {
                None
            } else {
                let mut single: Vec<Yaml> = Vec::new();
                single.push(yaml_clone(val));
                proof {
                    crate::patch::yaml::lemma_yv_seq(single@);
                }
                let out = concat_items(a, &single);
                assert(yv_seq(a@) + yv_seq(single@) =~= yv_seq(a@).push(yv(*val)));
                Some(Yaml::Array(out))
            }
        },
        (Yaml::String(_), Yaml::Array(b)) => {
            if yaml_vec_contains(b, e) {
                None
            } else {
                let mut single: Vec<Yaml> = Vec::new();
                single.push(yaml_clone(e));
                proof {
                    crate::patch::yaml::lemma_yv_seq(single@);
                }
                let out = concat_items(&single, b);
                assert(yv_seq(single@) =~= seq![yv(*e)]);
                Some(Yaml::Array(out))
            }
        },
        _ => None,
    }
}

/// A key that starts with `_`.
fn is_underscored(k: &str) -> (r: bool)
    ensures
        r == underscored(k@),
{
    k.unicode_len() > 0 && k.get_char(0) == '_'
}

proof fn lemma_merge_all_err(ps: Seq<(YamlV, YamlV)>, c: Seq<(YamlV, YamlV)>, j: int, x: YamlErrorV)
    requires
        0 <= j <= c.len(),
        merge_all(ps, c.take(j)) == Err::<Seq<(YamlV, YamlV)>, YamlErrorV>(x),
    ensures
        merge_all(ps, c) == Err::<Seq<(YamlV, YamlV)>, YamlErrorV>(x),
    decreases c.len() - j,
{
    if j < c.len() {
        assert(c.take(j + 1).drop_last() =~= c.take(j));
        lemma_merge_all_err(ps, c, j + 1, x);
    } else {
        assert(c.take(j) =~= c);
    }
}

/// Merges the entry `key: val` of a child into `parent` (see
/// [`merge_entry`]).
fn merge_entry_exec(parent: &mut YamlHash, key: &Yaml, val: &Yaml) -> (r: Result<(), YamlError>)
    ensures
        match merge_entry(old(parent).view_pairs(), yv(*key), yv(*val)) {
            Ok(p) => r is Ok && final(parent).view_pairs() == p,
            Err(e) => r matches Err(x) && x@ == e,
        },
    decreases val,
{
    broadcast use group_yaml_views;
    let _len = parent.entries.len();
    proof {
        reveal_strlit("_path");
        reveal_strlit("_include");
        assert("_path"@ =~= path_key());
        assert("_include"@ =~= include_key());
        crate::patch::yaml::lemma_yv_pairs(parent.entries@);
        lemma_first_key_some(parent.view_pairs(), yv(*key));
    }
    match key {
        Yaml::String(k) => {
            if str_eq(k.as_str(), "_path") || str_eq(k.as_str(), "_include") {
                return Ok(());
            }
            match parent.find(key) {
                None => {
                    parent.insert(yaml_clone(key), yaml_clone(val));
                    Ok(())
                },
                Some(i) => {
                    if !is_underscored(k.as_str()) {
                        add_indexed_exec(parent, key, val);
                        return Ok(());
                    }
                    let is_hash = match &parent.entries[i].1 {
                        Yaml::Hash(_) => true,
                        _ => false,
                    };
                    if is_hash {
                        if yaml_eq(&parent.entries[i].1, val) {
                            return Ok(());
                        }
                        let c = match val {
                            Yaml::Hash(c) => c,
                            _ => {
                                return Err(YamlError::NotHash(yaml_clone(val)));
                            },
                        };
                        let ghost before = parent.entries@;
                        let (kk, ev) = parent.entries.remove(i);
                        let mut h = match ev {
                            Yaml::Hash(h) => h,
                            _ => YamlHash::new(),
                        };
                        let ghost h0 = h.view_pairs();
                        assert(decreases_to!(*val => *c));
                        let res = update_dict(&mut h, c);
                        parent.entries.insert(i, (kk, Yaml::Hash(h)));
                        assert(yv_pairs(parent.entries@) =~= yv_pairs(before).update(
                            i as int,
                            (yv_pairs(before)[i as int].0, YamlV::Hash(h.view_pairs())),
                        ));
                        res
                    } else {
                        match merged_rule_exec(&parent.entries[i].1, val) {
                            None => Ok(()),
                            Some(n) => {
                                set_value(parent, i, n);
                                Ok(())
                            },
                        }
                    }
                },
            }
        },
        Yaml::Array(_) => {
            if parent.contains_key(key) {
                match indexed_key_name(key) {
                    Some(n) => {
                        add_indexed_exec(parent, n, val);
                        return Ok(());
                    },
                    None => {},
                }
            }
            parent.insert(yaml_clone(key), yaml_clone(val));
            Ok(())
        },
        _ => {
            parent.insert(yaml_clone(key), yaml_clone(val));
            Ok(())
        },
    }
}

/// Recursively merge child.key into parent.key, with parent overriding
pub fn update_dict(parent: &mut YamlHash, child: &YamlHash) -> (r: Result<(), YamlError>)
    ensures
        match merge_all(old(parent).view_pairs(), child.view_pairs()) {
            Ok(p) => r is Ok && final(parent).view_pairs() == p,
            Err(e) => r matches Err(x) && x@ == e,
        },
    decreases child,
{
    broadcast use group_yaml_views;
    let ghost c = child.view_pairs();
    let n = child.entries.len();
    let mut i: usize = 0;
    assert(c.take(0) =~= Seq::<(YamlV, YamlV)>::empty());
    while i < n
        invariant
            n == child.entries@.len(),
            c == child.view_pairs(),
            c.len() == n,
            i <= n,
            merge_all(old(parent).view_pairs(), c.take(i as int)) == Ok::<Seq<(YamlV, YamlV)>, YamlErrorV>(
                parent.view_pairs(),
            ),
        decreases n - i,
    {
        assert(c.take(i + 1).drop_last() =~= c.take(i as int));
        proof {
            crate::patch::yaml::lemma_yv_pairs(child.entries@);
        }
        assert(c[i as int] == (yv(child.entries@[i as int].0), yv(child.entries@[i as int].1)));
        assert(decreases_to!(*child => child.entries@[i as int].1));
        match merge_entry_exec(parent, &child.entries[i].0, &child.entries[i].1) {
            Ok(()) => {},
            Err(x) => {
                proof {
                    lemma_merge_all_err(old(parent).view_pairs(), c, i + 1, x@);
                }
                return Err(x);
            },
        }
        i = i + 1;
    }
    assert(c.take(n as int) =~= c);
    Ok(())
}

pub proof fn lemma_first_key_spec(ps: Seq<(YamlV, YamlV)>, k: YamlV)
    requires
        ps.len() <= usize::MAX,
    ensures
        match first_key(ps, k) {
            Some(j) => j < ps.len() && ps[j as int].0 == k && forall|m: int| 0 <= m < j ==> ps[m].0 != k,
            None => forall|m: int| 0 <= m < ps.len() ==> ps[m].0 != k,
        },
    decreases ps.len(),
{
    if ps.len() > 0 {
        lemma_first_key_spec(ps.drop_last(), k);
        assert forall|m: int| 0 <= m < ps.len() - 1 implies ps.drop_last()[m] == ps[m] by {}
    }
}

/// The first entry with key `k` is at `j`.
pub open spec fn first_at(ps: Seq<(YamlV, YamlV)>, k: YamlV, j: int) -> bool {
    0 <= j < ps.len() && ps[j].0 == k && forall|m: int| 0 <= m < j ==> ps[m].0 != k
}

proof fn lemma_first_key_from(ps: Seq<(YamlV, YamlV)>, k: YamlV, j: int)
    requires
        ps.len() <= usize::MAX,
        first_at(ps, k, j),
    ensures
        first_key(ps, k) == Some(j as usize),
{
    lemma_first_key_spec(ps, k);
    match first_key(ps, k) {
        Some(i) => {
            if (i as int) < j {
                assert(ps[i as int].0 != k);
            } else if (i as int) > j {
                assert(ps[j].0 != k);
            }
        },
        None => {
            assert(ps[j].0 != k);
        },
    }
}

/// Every key of `a` is a key of `b`, and where `k` is an element's name
/// (a string without `_`) both give it the same value.
pub open spec fn keeps(a: Seq<(YamlV, YamlV)>, b: Seq<(YamlV, YamlV)>) -> bool {
    &&& forall|key: YamlV| #[trigger] has_entry(a, key) ==> has_entry(b, key)
    &&& forall|k: Seq<char>|
        has_entry(a, YamlV::Str(k)) && !underscored(k) ==> #[trigger] lookup_in(b, YamlV::Str(k)) == lookup_in(
            a,
            YamlV::Str(k),
        )
}

/// The value of the first entry with key `k`.
pub open spec fn lookup_in(ps: Seq<(YamlV, YamlV)>, k: YamlV) -> Option<YamlV> {
    crate::patch::yaml::lookup(ps, k)
}

proof fn lemma_keeps_trans(a: Seq<(YamlV, YamlV)>, b: Seq<(YamlV, YamlV)>, c: Seq<(YamlV, YamlV)>)
    requires
        keeps(a, b),
        keeps(b, c),
    ensures
        keeps(a, c),
{
    assert forall|k: Seq<char>|
        has_entry(a, YamlV::Str(k)) && !underscored(k) implies #[trigger] lookup_in(c, YamlV::Str(k)) == lookup_in(
            a,
            YamlV::Str(k),
        ) by {
        assert(has_entry(b, YamlV::Str(k)));
        assert(lookup_in(b, YamlV::Str(k)) == lookup_in(a, YamlV::Str(k)));
    }
}

proof fn lemma_keeps_push(ps: Seq<(YamlV, YamlV)>, e: (YamlV, YamlV))
    requires
        ps.len() < usize::MAX,
        !has_entry(ps, e.0),
    ensures
        keeps(ps, ps.push(e)),
{
    let q = ps.push(e);
    assert forall|key: YamlV| #[trigger] has_entry(ps, key) implies has_entry(q, key) by {
        lemma_first_key_spec(ps, key);
        let j = first_key(ps, key).unwrap() as int;
        assert(q[j] == ps[j]);
        lemma_first_key_from(q, key, j);
    }
    assert forall|k: Seq<char>|
        has_entry(ps, YamlV::Str(k)) && !underscored(k) implies #[trigger] lookup_in(q, YamlV::Str(k)) == lookup_in(
            ps,
            YamlV::Str(k),
        ) by {
        let key = YamlV::Str(k);
        lemma_first_key_spec(ps, key);
        let j = first_key(ps, key).unwrap() as int;
        assert(q[j] == ps[j]);
        lemma_first_key_from(q, key, j);
    }
}

proof fn lemma_keeps_update(ps: Seq<(YamlV, YamlV)>, i: int, v: YamlV)
    requires
        ps.len() <= usize::MAX,
        0 <= i < ps.len(),
        ps[i].0 matches YamlV::Str(k) && underscored(k),
    ensures
        keeps(ps, ps.update(i, (ps[i].0, v))),
{
    let q = ps.update(i, (ps[i].0, v));
    assert forall|key: YamlV| #[trigger] has_entry(ps, key) implies has_entry(q, key) by {
        lemma_first_key_spec(ps, key);
        let j = first_key(ps, key).unwrap() as int;
        lemma_first_key_from(q, key, j);
    }
    assert forall|k: Seq<char>|
        has_entry(ps, YamlV::Str(k)) && !underscored(k) implies #[trigger] lookup_in(q, YamlV::Str(k)) == lookup_in(
            ps,
            YamlV::Str(k),
        ) by {
        let key = YamlV::Str(k);
        lemma_first_key_spec(ps, key);
        let j = first_key(ps, key).unwrap() as int;
        lemma_first_key_from(q, key, j);
    }
}

proof fn lemma_keeps_inserted(ps: Seq<(YamlV, YamlV)>, key2: YamlV, v: YamlV)
    requires
        ps.len() < usize::MAX,
        !(key2 is Str) || !has_entry(ps, key2),
    ensures
        keeps(ps, inserted(ps, key2, v)),
{
    lemma_first_key_spec(ps, key2);
    match first_key(ps, key2) {
        None => {
            lemma_keeps_push(ps, (key2, v));
        },
        Some(i0) => {
            let i = i0 as int;
            let q = inserted(ps, key2, v);
            assert(q == ps.remove(i).push((key2, v)));
            assert forall|key: YamlV| #[trigger] has_entry(ps, key) implies has_entry(q, key) by {
                if key == key2 {
                    lemma_first_key_spec(q, key);
                    assert(q[q.len() - 1].0 == key);
                } else {
                    lemma_first_key_spec(ps, key);
                    let j = first_key(ps, key).unwrap() as int;
                    let jj = if j < i { j } else { j - 1 };
                    assert(q[jj] == ps[j]);
                    assert forall|m: int| 0 <= m < jj implies q[m].0 != key by {
                        if m < i {
                            assert(q[m] == ps[m]);
                        } else {
                            assert(q[m] == ps[m + 1]);
                        }
                    }
                    lemma_first_key_from(q, key, jj);
                }
            }
            assert forall|k: Seq<char>|
                has_entry(ps, YamlV::Str(k)) && !underscored(k) implies #[trigger] lookup_in(q, YamlV::Str(k))
                == lookup_in(ps, YamlV::Str(k)) by {
                let key = YamlV::Str(k);
                lemma_first_key_spec(ps, key);
                let j = first_key(ps, key).unwrap() as int;
                let jj = if j < i { j } else { j - 1 };
                assert(q[jj] == ps[j]);
                assert forall|m: int| 0 <= m < jj implies q[m].0 != key by {
                    if m < i {
                        assert(q[m] == ps[m]);
                    } else {
                        assert(q[m] == ps[m + 1]);
                    }
                }
                lemma_first_key_from(q, key, jj);
            }
        },
    }
}

proof fn lemma_keeps_add_indexed(ps: Seq<(YamlV, YamlV)>, k: YamlV, v: YamlV)
    requires
        ps.len() < usize::MAX,
    ensures
        keeps(ps, add_indexed(ps, k, v)),
{
    lemma_free_from(ps, k, 0);
    match free_from(ps, k, 0) {
        Some(i) => {
            lemma_keeps_push(ps, (indexed_key(k, i), v));
        },
        None => {},
    }
}

proof fn lemma_keeps_entry(ps: Seq<(YamlV, YamlV)>, key: YamlV, val: YamlV)
    requires
        ps.len() < usize::MAX,
        merge_entry(ps, key, val) is Ok,
    ensures
        keeps(ps, merge_entry(ps, key, val)->Ok_0),
        merge_entry(ps, key, val)->Ok_0.len() <= ps.len() + 1,
{
    lemma_first_key_some(ps, key);
    let q = merge_entry(ps, key, val)->Ok_0;
    match key {
        YamlV::Str(k) => {
            if k == path_key() || k == include_key() {
            } else if has_entry(ps, key) && underscored(k) {
                let i = first_key(ps, key).unwrap() as int;
                let e = ps[i].1;
                if q != ps {
                    match (e, val) {
                        (YamlV::Hash(h), YamlV::Hash(c)) => {
                            lemma_keeps_update(ps, i, YamlV::Hash(merge_all(h, c)->Ok_0));
                        },
                        _ => {
                            lemma_keeps_update(ps, i, merged_rule(e, val)->Some_0);
                        },
                    }
                }
            } else if has_entry(ps, key) {
                lemma_keeps_add_indexed(ps, key, val);
            } else {
                lemma_keeps_inserted(ps, key, val);
            }
        },
        YamlV::Array(a) => {
            if has_entry(ps, key) && is_indexed_key(key) {
                lemma_keeps_add_indexed(ps, a[0], val);
            } else {
                lemma_keeps_inserted(ps, key, val);
            }
        },
        _ => {
            lemma_keeps_inserted(ps, key, val);
        },
    }
}

/// Merging an included document (see [`update_dict`]) keeps every key of the
/// including one, and for each of its elements (a string key that does not
/// start with `_`) the including document's value wins.
pub proof fn law_parent_wins(ps: Seq<(YamlV, YamlV)>, c: Seq<(YamlV, YamlV)>)
    requires
        ps.len() + c.len() < usize::MAX,
        merge_all(ps, c) is Ok,
    ensures
        keeps(ps, merge_all(ps, c)->Ok_0),
        merge_all(ps, c)->Ok_0.len() <= ps.len() + c.len(),
    decreases c.len(),
{
    if c.len() == 0 {
        assert(keeps(ps, ps));
    } else {
        law_parent_wins(ps, c.drop_last());
        let p2 = merge_all(ps, c.drop_last())->Ok_0;
        lemma_keeps_entry(p2, c.last().0, c.last().1);
        lemma_keeps_trans(ps, p2, merge_all(ps, c)->Ok_0);
    }
}

} // verus!
