//! The patch rules that work on the registers and clusters of a block (a
//! peripheral or a cluster).
use vstd::prelude::*;
use crate::model::{Cluster, Register, RegisterCluster};
use crate::patch::error::{PatchError, PatchErrorKind, failed_with};
use crate::patch::names::{
    try_matchname, name_matches, spec_compiles_for, plain_glob_ok, plain_glob_match,
    plain_glob_compiles, plain_glob_is_match,
};
use crate::patch::register::{stripped_start, stripped_end, fields_of, names_compile, fields_replaced, cleared};
use crate::patch::{Spec, spec_parts};
use crate::text::{copy_str, push_char, opt_view};

verus! {

/// The name of a register or cluster.
pub open spec fn rc_name(rc: RegisterCluster) -> Seq<char> {
    match rc {
        RegisterCluster::Register(r) => r.name@,
        RegisterCluster::Cluster(c) => c.name@,
    }
}

/// The name of a register or cluster.
pub fn rc_name_of(rc: &RegisterCluster) -> (r: &str)
    ensures
        r@ == rc_name(*rc),
{
    match rc {
        RegisterCluster::Register(r) => r.name.as_str(),
        RegisterCluster::Cluster(c) => c.name.as_str(),
    }
}

/// Every glob needed to match the names of `cs` against `spec` compiles.
pub open spec fn rc_names_compile(cs: Seq<RegisterCluster>, spec: Seq<char>) -> bool {
    forall|i: int| 0 <= i < cs.len() ==> spec_compiles_for(rc_name(#[trigger] cs[i]), spec)
}

/// Every glob needed to match the names of the registers among `cs`
/// compiles.
pub open spec fn reg_names_compile(cs: Seq<RegisterCluster>, spec: Seq<char>) -> bool {
    forall|i: int| 0 <= i < cs.len() && #[trigger] cs[i] is Register ==> spec_compiles_for(rc_name(cs[i]), spec)
}

/// Every glob needed to match the names of the clusters among `cs`
/// compiles.
pub open spec fn cluster_names_compile(cs: Seq<RegisterCluster>, spec: Seq<char>) -> bool {
    forall|i: int| 0 <= i < cs.len() && #[trigger] cs[i] is Cluster ==> spec_compiles_for(rc_name(cs[i]), spec)
}

/// `spec` selects the member `rc` (a register or cluster).
pub open spec fn rc_selected(spec: Seq<char>, rc: RegisterCluster) -> bool {
    name_matches(rc_name(rc), spec)
}

/// `spec` selects the register `rc`.
pub open spec fn reg_selected(spec: Seq<char>, rc: RegisterCluster) -> bool {
    rc is Register && name_matches(rc_name(rc), spec)
}

/// `spec` selects the cluster `rc`.
pub open spec fn cluster_selected(spec: Seq<char>, rc: RegisterCluster) -> bool {
    rc is Cluster && name_matches(rc_name(rc), spec)
}

/// The test that keeps members not selected by `spec`.
pub open spec fn keep_rc(spec: Seq<char>) -> spec_fn(RegisterCluster) -> bool {
    |rc: RegisterCluster| !rc_selected(spec, rc)
}

/// The test that keeps members that are not registers selected by `spec`.
pub open spec fn keep_reg(spec: Seq<char>) -> spec_fn(RegisterCluster) -> bool {
    |rc: RegisterCluster| !reg_selected(spec, rc)
}

/// The test that keeps members that are not clusters selected by `spec`.
pub open spec fn keep_cluster(spec: Seq<char>) -> spec_fn(RegisterCluster) -> bool {
    |rc: RegisterCluster| !cluster_selected(spec, rc)
}

/// Which kind of members a deletion is about.
pub enum Kinds {
    Both,
    Registers,
    Clusters,
}

/// Whether a member of kind `k` is considered at all.
pub open spec fn of_kind(k: Kinds, rc: RegisterCluster) -> bool {
    match k {
        Kinds::Both => true,
        Kinds::Registers => rc is Register,
        Kinds::Clusters => rc is Cluster,
    }
}

/// Whether the globs needed for members of kind `k` compile.
pub open spec fn kind_compiles(cs: Seq<RegisterCluster>, spec: Seq<char>, k: Kinds) -> bool {
    forall|i: int| 0 <= i < cs.len() && of_kind(k, #[trigger] cs[i]) ==> spec_compiles_for(rc_name(cs[i]), spec)
}

/// The test that keeps members not selected by `spec` among kind `k`.
pub open spec fn keep_kind(spec: Seq<char>, k: Kinds) -> spec_fn(RegisterCluster) -> bool {
    |rc: RegisterCluster| !(of_kind(k, rc) && name_matches(rc_name(rc), spec))
}

/// Removes the members of kind `k` that `spec` selects; `None` (and nothing
/// removed) when a glob does not compile. Also says whether any went.
pub fn remove_selected(cs: &mut Vec<RegisterCluster>, spec: &str, k: Kinds) -> (r: Option<bool>)
    ensures
        r is None <==> !kind_compiles(old(cs)@, spec@, k),
        r is None ==> *final(cs) == *old(cs),
        r matches Some(any) ==> final(cs)@ == old(cs)@.filter(keep_kind(spec@, k)) && (any <==> exists|i: int|
            0 <= i < old(cs)@.len() && !keep_kind(spec@, k)(#[trigger] old(cs)@[i])),
{
    // First test every member, so that nothing goes when a glob fails.
    let mut flags: Vec<bool> = Vec::new();
    let mut i: usize = 0;
    while i < cs.len()
        invariant
            i <= cs@.len(),
            flags@.len() == i,
            forall|j: int| 0 <= j < i && of_kind(k, #[trigger] cs@[j]) ==> spec_compiles_for(rc_name(cs@[j]), spec@),
            forall|j: int| 0 <= j < i ==> flags@[j] == !keep_kind(spec@, k)(#[trigger] cs@[j]),
        decreases cs.len() - i,
    {
        let considered = match (&k, &cs[i]) {
            (Kinds::Both, _) => true,
            (Kinds::Registers, RegisterCluster::Register(_)) => true,
            (Kinds::Clusters, RegisterCluster::Cluster(_)) => true,
            _ => false,
        };
        if considered {
            match try_matchname(rc_name_of(&cs[i]), spec) {
                None => {
                    return None;
                },
                Some(b) => {
                    flags.push(b);
                },
            }
        } else {
            flags.push(false);
        }
        i = i + 1;
    }
    let ghost orig = cs@;
    let ghost keep = keep_kind(spec@, k);
    let mut kept: Vec<RegisterCluster> = Vec::new();
    let mut any = false;
    let n = cs.len();
    let mut j: usize = 0;
    while j < n
        invariant
            n == orig.len(),
            flags@.len() == n,
            forall|q: int| 0 <= q < n ==> flags@[q] == !keep(#[trigger] orig[q]),
            keep == keep_kind(spec@, k),
            j <= n,
            cs@ == orig.skip(j as int),
            kept@ == orig.take(j as int).filter(keep),
            any <==> exists|q: int| 0 <= q < j && !keep(#[trigger] orig[q]),
        decreases n - j,
    {
        assert(cs@[0] == orig[j as int]);
        let rc = cs.remove(0);
        proof {
            orig.take(j as int).lemma_filter_push(orig[j as int], keep);
            assert(orig.take(j + 1) =~= orig.take(j as int).push(orig[j as int]));
            assert(flags@[j as int] == !keep(orig[j as int]));
        }
        if flags[j] {
            any = true;
        } else {
            kept.push(rc);
        }
        j = j + 1;
        assert(cs@ =~= orig.skip(j as int));
    }
    assert(orig.take(j as int) =~= orig);
    *cs = kept;
    Some(any)
}

/// `b` is register `a` with its name, display name and alternate register
/// each changed by `f` where `f` changes them.
pub open spec fn reg_renamed(a: Register, b: Register, f: spec_fn(Seq<char>) -> Seq<char>) -> bool {
    &&& b == Register {
        name: b.name,
        display_name: b.display_name,
        alternate_register: b.alternate_register,
        ..a
    }
    &&& b.name@ == f(a.name@)
    &&& opt_view(b.display_name) == match a.display_name {
        Some(d) => Some(f(d@)),
        None => None,
    }
    &&& opt_view(b.alternate_register) == match a.alternate_register {
        Some(d) => Some(f(d@)),
        None => None,
    }
}

/// `b` is cluster `a` with its name, header struct name and alternate cluster
/// each changed by `f`.
pub open spec fn cluster_renamed(a: Cluster, b: Cluster, f: spec_fn(Seq<char>) -> Seq<char>) -> bool {
    &&& b == Cluster {
        name: b.name,
        header_struct_name: b.header_struct_name,
        alternate_cluster: b.alternate_cluster,
        ..a
    }
    &&& b.name@ == f(a.name@)
    &&& opt_view(b.header_struct_name) == match a.header_struct_name {
        Some(d) => Some(f(d@)),
        None => None,
    }
    &&& opt_view(b.alternate_cluster) == match a.alternate_cluster {
        Some(d) => Some(f(d@)),
        None => None,
    }
}

/// `b` is member `a` renamed by `f`: registers always, clusters only when
/// `clusters_too`.
pub open spec fn rc_renamed(a: RegisterCluster, b: RegisterCluster, f: spec_fn(Seq<char>) -> Seq<char>, clusters_too: bool) -> bool {
    match (a, b) {
        (RegisterCluster::Register(x), RegisterCluster::Register(y)) => reg_renamed(x, y, f),
        (RegisterCluster::Cluster(x), RegisterCluster::Cluster(y)) => if clusters_too {
            cluster_renamed(x, y, f)
        } else {
            x == y
        },
        _ => false,
    }
}

/// How a name is changed.
pub enum Rename {
    StripStart,
    StripEnd,
    Prefix,
    Suffix,
}

/// What the change `how` with the text `t` makes of `name`.
pub open spec fn renamed_text(how: Rename, t: Seq<char>, name: Seq<char>) -> Seq<char> {
    match how {
        Rename::StripStart => stripped_start(t, name),
        Rename::StripEnd => stripped_end(t, name),
        Rename::Prefix => t + name,
        Rename::Suffix => name + t,
    }
}

/// The glob a change uses, if any.
pub open spec fn rename_glob(how: Rename, t: Seq<char>) -> Seq<char> {
    match how {
        Rename::StripStart => t + seq!['*'],
        Rename::StripEnd => seq!['*'] + t,
        _ => Seq::empty(),
    }
}

/// Whether a change needs a glob.
pub open spec fn uses_glob(how: Rename) -> bool {
    how is StripStart || how is StripEnd
}

fn rename_text(how: &Rename, t: &str, pat: &str, name: &str) -> (r: String)
    requires
        uses_glob(*how) ==> pat@ == rename_glob(*how, t@) && plain_glob_ok(pat@),
    ensures
        r@ == renamed_text(*how, t@, name@),
{
    match how {
        Rename::StripStart => {
            let n = t.unicode_len();
            let m = name.unicode_len();
            if plain_glob_is_match(pat, name) && m >= n {
                copy_str(name.substring_char(n, m))
            } else {
                copy_str(name)
            }
        },
        Rename::StripEnd => {
            let n = t.unicode_len();
            let m = name.unicode_len();
            if plain_glob_is_match(pat, name) && m >= n {
                copy_str(name.substring_char(0, m - n))
            } else {
                copy_str(name)
            }
        },
        Rename::Prefix => {
            let mut s = copy_str(t);
            s.append(name);
            s
        },
        Rename::Suffix => {
            let mut s = copy_str(name);
            s.append(t);
            s
        },
    }
}

fn rename_opt(how: &Rename, t: &str, pat: &str, o: &Option<String>) -> (r: Option<String>)
    requires
        uses_glob(*how) ==> pat@ == rename_glob(*how, t@) && plain_glob_ok(pat@),
    ensures
        opt_view(r) == match *o {
            Some(d) => Some(renamed_text(*how, t@, d@)),
            None => None,
        },
{
    match o {
        Some(d) => Some(rename_text(how, t, pat, d.as_str())),
        None => None,
    }
}

/// Renames the registers of `cs` (and, for stripping, the clusters) by the
/// change `how` with the text `t`; fails only when the glob does not compile.
pub fn rename_members(cs: &mut Vec<RegisterCluster>, how: Rename, t: &str) -> (r: Result<(), PatchError>)
    ensures
        r is Err <==> uses_glob(how) && !plain_glob_ok(rename_glob(how, t@)),
        r is Err ==> *final(cs) == *old(cs) && failed_with(r, PatchErrorKind::InvalidSpec),
        r is Ok ==> final(cs)@.len() == old(cs)@.len() && forall|i: int|
            0 <= i < old(cs)@.len() ==> rc_renamed(
                #[trigger] old(cs)@[i],
                final(cs)@[i],
                |s: Seq<char>| renamed_text(how, t@, s),
                uses_glob(how),
            ),
{
    let mut pat = String::new();
    match how {
        Rename::StripStart => {
            pat.append(t);
            push_char(&mut pat, '*');
            assert(pat@ =~= rename_glob(how, t@));
        },
        Rename::StripEnd => {
            push_char(&mut pat, '*');
            pat.append(t);
            assert(pat@ =~= rename_glob(how, t@));
        },
        _ => {},
    }
    let glob = match how {
        Rename::StripStart | Rename::StripEnd => true,
        _ => false,
    };
    if glob && !plain_glob_compiles(pat.as_str()) {
        return Err(PatchError::InvalidSpec(pat));
    }
    let ghost orig = cs@;
    let ghost f = |s: Seq<char>| renamed_text(how, t@, s);
    let n = cs.len();
    let mut out: Vec<RegisterCluster> = Vec::new();
    let mut i: usize = 0;
    while i < n
        invariant
            n == orig.len(),
            i <= n,
            cs@ == orig.skip(i as int),
            out@.len() == i,
            glob == uses_glob(how),
            uses_glob(how) ==> pat@ == rename_glob(how, t@) && plain_glob_ok(pat@),
            f == (|s: Seq<char>| renamed_text(how, t@, s)),
            forall|k: int| 0 <= k < i ==> rc_renamed(#[trigger] orig[k], out@[k], f, glob),
        decreases n - i,
    {
        assert(cs@[0] == orig[i as int]);
        let rc = cs.remove(0);
        let newrc = match rc {
            RegisterCluster::Register(mut r) => {
                r.name = rename_text(&how, t, pat.as_str(), r.name.as_str());
                r.display_name = rename_opt(&how, t, pat.as_str(), &r.display_name);
                r.alternate_register = rename_opt(&how, t, pat.as_str(), &r.alternate_register);
                RegisterCluster::Register(r)
            },
            RegisterCluster::Cluster(mut c) => {
                if glob {
                    c.name = rename_text(&how, t, pat.as_str(), c.name.as_str());
                    c.header_struct_name = rename_opt(&how, t, pat.as_str(), &c.header_struct_name);
                    c.alternate_cluster = rename_opt(&how, t, pat.as_str(), &c.alternate_cluster);
                }
                RegisterCluster::Cluster(c)
            },
        };
        out.push(newrc);
        i = i + 1;
        assert(cs@ =~= orig.skip(i as int));
    }
    *cs = out;
    Ok(())
}

/// The specification that selects every field.
pub open spec fn all_fields() -> Seq<char> {
    seq!['*']
}

/// Register `a` is selected by `spec` for clearing: its name matches and it
/// is not derived.
pub open spec fn clears(spec: Seq<char>, a: Register) -> bool {
    name_matches(a.name@, spec) && a.derived_from is None
}

/// Clearing the fields of the registers selected by `spec` can be done on
/// `a`: every glob it needs compiles.
pub open spec fn clear_ok_rc(spec: Seq<char>, a: RegisterCluster) -> bool
    decreases a,
{
    match a {
        RegisterCluster::Register(x) => spec_compiles_for(x.name@, spec) && (clears(spec, x) ==> names_compile(
            fields_of(x),
            all_fields(),
        )),
        RegisterCluster::Cluster(x) => forall|i: int|
            0 <= i < x.children@.len() ==> clear_ok_rc(spec, #[trigger] x.children@[i]),
    }
}

/// `b` is `a` with the fields of every register that `spec` selects, at any
/// depth, cleared as [`Register::clear_field`] clears all fields.
pub open spec fn cleared_rc(spec: Seq<char>, a: RegisterCluster, b: RegisterCluster) -> bool
    decreases a,
{
    match (a, b) {
        (RegisterCluster::Register(x), RegisterCluster::Register(y)) => if clears(spec, x) {
            &&& fields_replaced(x, y)
            &&& fields_of(y).len() == fields_of(x).len()
            &&& forall|i: int|
                0 <= i < fields_of(x).len() ==> cleared(all_fields(), #[trigger] fields_of(x)[i], fields_of(y)[i])
        } else {
            y == x
        },
        (RegisterCluster::Cluster(x), RegisterCluster::Cluster(y)) => {
            &&& y == Cluster { children: y.children, ..x }
            &&& y.children@.len() == x.children@.len()
            &&& forall|i: int|
                0 <= i < x.children@.len() ==> cleared_rc(spec, #[trigger] x.children@[i], y.children@[i])
        },
        _ => false,
    }
}

/// Clears the fields of every register in `cs`, at any depth, that `rspec`
/// selects and that is not derived.
pub fn clear_fields_in(cs: &mut Vec<RegisterCluster>, rspec: &str) -> (r: Result<(), PatchError>)
    ensures
        r is Ok <==> forall|i: int| 0 <= i < old(cs)@.len() ==> clear_ok_rc(rspec@, #[trigger] old(cs)@[i]),
        r is Err ==> failed_with(r, PatchErrorKind::InvalidSpec),
        r is Ok ==> final(cs)@.len() == old(cs)@.len() && forall|i: int|
            0 <= i < old(cs)@.len() ==> cleared_rc(rspec@, #[trigger] old(cs)@[i], final(cs)@[i]),
    decreases old(cs)@,
{
    let ghost orig = cs@;
    let n = cs.len();
    let mut out: Vec<RegisterCluster> = Vec::new();
    let mut i: usize = 0;
    while i < n
        invariant
            n == orig.len(),
            orig == old(cs)@,
            i <= n,
            cs@ == orig.skip(i as int),
            out@.len() == i,
            forall|k: int| 0 <= k < i ==> clear_ok_rc(rspec@, #[trigger] orig[k]),
            forall|k: int| 0 <= k < i ==> cleared_rc(rspec@, #[trigger] orig[k], out@[k]),
        decreases n - i,
    {
        assert(cs@[0] == orig[i as int]);
        let rc = cs.remove(0);
        let newrc = match rc {
            RegisterCluster::Register(mut x) => {
                let sel = match try_matchname(x.name.as_str(), rspec) {
                    None => {
                        assert(!clear_ok_rc(rspec@, orig[i as int]));
                        return Err(PatchError::InvalidSpec(copy_str(rspec)));
                    },
                    Some(b) => b,
                };
                if sel && x.derived_from.is_none() {
                    proof {
                        reveal_strlit("*");
                        assert("*"@ =~= all_fields());
                    }
                    let ghost x0 = x;
                    match x.clear_field("*") {
                        Ok(()) => {},
                        Err(e) => {
                            assert(!clear_ok_rc(rspec@, orig[i as int]));
                            return Err(e);
                        },
                    }
                    assert(cleared_rc(rspec@, RegisterCluster::Register(x0), RegisterCluster::Register(x)));
                }
                RegisterCluster::Register(x)
            },
            RegisterCluster::Cluster(mut x) => {
                assert(decreases_to!(orig => orig[i as int]));
                let ghost x0 = x;
                match clear_fields_in(&mut x.children, rspec) {
                    Ok(()) => {},
                    Err(e) => {
                        assert(!clear_ok_rc(rspec@, orig[i as int]));
                        return Err(e);
                    },
                }
                assert(cleared_rc(rspec@, RegisterCluster::Cluster(x0), RegisterCluster::Cluster(x)));
                RegisterCluster::Cluster(x)
            },
        };
        out.push(newrc);
        i = i + 1;
        assert(cs@ =~= orig.skip(i as int));
    }
    *cs = out;
    Ok(())
}

} // verus!
