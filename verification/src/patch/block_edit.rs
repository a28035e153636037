//! Adding and changing the registers and clusters of a block.
use vstd::prelude::*;
use crate::model::{Cluster, DimElement, Register, RegisterCluster, RegisterProperties};
use crate::patch::arrays::adding_pos;
use crate::patch::block::{Kinds, kind_compiles, of_kind, rc_name, rc_name_of};
use crate::patch::builders::{BlockPath, ReadErr, dim_patch_spec, dim_patched, failed_reading, k_derived_from, make_dim_element, modify_dim, text_entry};
use crate::patch::error::{PatchError, PatchErrorKind, failed_with};
use crate::patch::names::{name_matches, try_matchname};
use crate::patch::reg_builders::{
    ClusterPatch, RegPatch, build_cluster, build_register, cluster_build_ok, cluster_built, cluster_patch_is,
    cluster_patched, cluster_read_err, dim_buildable, make_cluster, make_register, props_merged, props_spec,
    reg_build_ok, reg_built, reg_patch_is, reg_patched, reg_read_err, reset_fits, text_of,
};
use crate::patch::yaml::{YamlHash, YamlV};
use crate::patch::{Spec, spec_parts};
use crate::text::{copy_str, str_eq};

verus! {

/// Which members of `cs` of kind `k` `spec` selects; `None` when a glob does
/// not compile.
pub fn select_flags(cs: &Vec<RegisterCluster>, spec: &str, k: Kinds) -> (r: Option<Vec<bool>>)
    ensures
        r is None <==> !kind_compiles(cs@, spec@, k),
        r matches Some(v) ==> v@.len() == cs@.len() && forall|i: int|
            0 <= i < cs@.len() ==> v@[i] == (of_kind(k, #[trigger] cs@[i]) && name_matches(rc_name(cs@[i]), spec@)),
{
    let mut flags: Vec<bool> = Vec::new();
    let mut i: usize = 0;
    while i < cs.len()
        invariant
            i <= cs@.len(),
            flags@.len() == i,
            forall|j: int| 0 <= j < i && of_kind(k, #[trigger] cs@[j]) ==> crate::patch::names::spec_compiles_for(rc_name(cs@[j]), spec@),
            forall|j: int| 0 <= j < i ==> flags@[j] == (of_kind(k, #[trigger] cs@[j]) && name_matches(rc_name(cs@[j]), spec@)),
        decreases cs.len() - i,
    {
        let considered = match (&k, &cs[i]) {
            (Kinds::Both, _) => true,
            (Kinds::Registers, RegisterCluster::Register(_)) => true,
            (Kinds::Clusters, RegisterCluster::Cluster(_)) => true,
            _ => false,
        };
        if considered {
            match try_matchname(rc_name_of(&cs[i]), spec) {
                None => {
                    return None;
                },
                Some(b) => {
                    flags.push(b);
                },
            }
        } else {
            flags.push(false);
        }
        i = i + 1;
    }
    Some(flags)
}

/// Some register among `cs` is called `name`.
pub open spec fn has_reg_named(cs: Seq<RegisterCluster>, name: Seq<char>) -> bool {
    exists|i: int| 0 <= i < cs.len() && #[trigger] cs[i] is Register && rc_name(cs[i]) == name
}

/// Some cluster among `cs` is called `name`.
pub open spec fn has_cluster_named(cs: Seq<RegisterCluster>, name: Seq<char>) -> bool {
    exists|i: int| 0 <= i < cs.len() && #[trigger] cs[i] is Cluster && rc_name(cs[i]) == name
}

fn find_named(cs: &Vec<RegisterCluster>, name: &str, clusters: bool) -> (r: bool)
    ensures
        r == if clusters { has_cluster_named(cs@, name@) } else { has_reg_named(cs@, name@) },
{
    let mut i: usize = 0;
    while i < cs.len()
        invariant
            i <= cs@.len(),
            forall|j: int|
                0 <= j < i ==> !((if clusters { #[trigger] cs@[j] is Cluster } else { cs@[j] is Register }) && rc_name(
                    cs@[j],
                ) == name@),
        decreases cs.len() - i,
    {
        let kind_ok = match &cs[i] {
            RegisterCluster::Register(_) => !clusters,
            RegisterCluster::Cluster(_) => clusters,
        };
        if kind_ok && str_eq(rc_name_of(&cs[i]), name) {
            return true;
        }
        i = i + 1;
    }
    false
}

/// The offset of a member.
pub open spec fn rc_offset(rc: RegisterCluster) -> u64 {
    match rc {
        RegisterCluster::Register(r) => r.address_offset as u64,
        RegisterCluster::Cluster(c) => c.address_offset as u64,
    }
}

/// The offsets of the members `cs`.
pub open spec fn member_offsets(cs: Seq<RegisterCluster>) -> Seq<u64> {
    cs.map_values(|rc: RegisterCluster| rc_offset(rc))
}

/// `p` is where an item with key `key` goes among items with keys `keys`:
/// just after the last item with the largest key that does not exceed it,
/// or at the front.
pub open spec fn adding_at(keys: Seq<u64>, key: u64, p: int) -> bool {
    &&& 0 <= p <= keys.len()
    &&& p == 0 <==> forall|k: int| 0 <= k < keys.len() ==> #[trigger] keys[k] > key
    &&& p > 0 ==> {
        &&& keys[p - 1] <= key
        &&& forall|k: int| #![trigger keys[k]] 0 <= k < keys.len() && keys[k] <= key ==> keys[k] <= keys[p - 1]
        &&& forall|k: int| #![trigger keys[k]] p - 1 < k < keys.len() && keys[k] <= key ==> keys[k] < keys[p - 1]
    }
}

fn member_offsets_vec(cs: &Vec<RegisterCluster>) -> (r: Vec<u64>)
    ensures
        r@ == member_offsets(cs@),
{
    let mut out: Vec<u64> = Vec::new();
    let mut i: usize = 0;
    while i < cs.len()
        invariant
            i <= cs@.len(),
            out@ == member_offsets(cs@).take(i as int),
        decreases cs.len() - i,
    {
        let o: u64 = match &cs[i] {
            RegisterCluster::Register(r) => r.address_offset as u64,
            RegisterCluster::Cluster(c) => c.address_offset as u64,
        };
        out.push(o);
        i = i + 1;
        assert(out@ =~= member_offsets(cs@).take(i as int));
    }
    assert(out@ =~= member_offsets(cs@));
    out
}

/// Inserts `rc` among `cs` by its offset (see [`adding_at`]).
pub fn insert_by_offset(cs: &mut Vec<RegisterCluster>, rc: RegisterCluster)
    ensures
        exists|p: int| adding_at(member_offsets(old(cs)@), rc_offset(rc), p) && final(cs)@ == old(cs)@.insert(p, rc),
{
    let keys = member_offsets_vec(cs);
    let key: u64 = match &rc {
        RegisterCluster::Register(r) => r.address_offset as u64,
        RegisterCluster::Cluster(c) => c.address_offset as u64,
    };
    let p = adding_pos(key, keys.as_slice());
    assert(adding_at(member_offsets(cs@), rc_offset(rc), p as int));
    cs.insert(p, rc);
}

/// `x` is the register that the rule `h` adds under the name `name`.
pub open spec fn reg_added(h: Seq<(YamlV, YamlV)>, bpath: BlockPath, name: Seq<char>, x: Register) -> bool {
    &&& exists|b: RegPatch| reg_patch_is(b, h, Some(&bpath)) && #[trigger] reg_built(b, name, Register { dim: None, ..x })
    &&& match dim_patch_spec(h)->Ok_0 {
        None => x.dim is None,
        Some(dp) => dim_patched(None, dp, x.dim),
    }
}

/// The error of building the register that the rule `h` adds, if any.
pub open spec fn reg_add_err(h: Seq<(YamlV, YamlV)>) -> Option<ReadErr> {
    if reg_read_err(h) is Some {
        reg_read_err(h)
    } else if !(crate::patch::builders::int_entry(h, crate::patch::reg_builders::k_address_offset())->Ok_0 is Some
        && reset_fits(props_spec(h)->Ok_0)) {
        Some(ReadErr::Invalid)
    } else {
        match dim_patch_spec(h) {
            Err(e) => Some(e),
            Ok(d) => if dim_buildable(d) {
                None
            } else {
                Some(ReadErr::Invalid)
            },
        }
    }
}

/// Builds the register that the rule `radd` adds under the name `rname`.
fn new_register(rname: &str, radd: &YamlHash, bpath: &BlockPath) -> (r: Result<Register, PatchError>)
    ensures
        match reg_add_err(radd.view_pairs()) {
            Some(e) => failed_reading(r, e),
            None => r matches Ok(x) && reg_added(radd.view_pairs(), *bpath, rname@, x),
        },
{
    let b = make_register(radd, Some(bpath))?;
    let ghost bb = b;
    let mut x = build_register(b, rname)?;
    let ghost x0 = x;
    match make_dim_element(radd)? {
        None => {},
        Some(d) => {
            modify_dim(&mut x.dim, &d)?;
        },
    }
    assert(x0 == Register { dim: None, ..x });
    assert(reg_patch_is(bb, radd.view_pairs(), Some(bpath)) && reg_built(bb, rname@, Register { dim: None, ..x }));
    Ok(x)
}

/// What adding the register `rname` as `h` describes makes of the members
/// `cs`: `after`, with the outcome `r`.
pub open spec fn reg_add_outcome(
    cs: Seq<RegisterCluster>,
    rname: Seq<char>,
    h: Seq<(YamlV, YamlV)>,
    bpath: BlockPath,
    r: Result<(), PatchError>,
    after: Seq<RegisterCluster>,
) -> bool {
    if has_reg_named(cs, rname) {
        failed_with(r, PatchErrorKind::AlreadyExists) && after == cs
    } else {
        match reg_add_err(h) {
            Some(e) => failed_reading(r, e) && after == cs,
            None => r is Ok && exists|p: int, x: Register|
                #![trigger reg_added(h, bpath, rname, x), adding_at(member_offsets(cs), x.address_offset as u64, p)]
                reg_added(h, bpath, rname, x) && adding_at(member_offsets(cs), x.address_offset as u64, p) && after
                    == cs.insert(p, RegisterCluster::Register(x)),
        }
    }
}

/// Add rname given by radd to ptag
pub fn add_register_to(cs: &mut Vec<RegisterCluster>, rname: &str, radd: &YamlHash, bpath: &BlockPath) -> (r: Result<(), PatchError>)
    ensures
        reg_add_outcome(old(cs)@, rname@, radd.view_pairs(), *bpath, r, final(cs)@),
{
    if find_named(cs, rname, false) {
        return Err(PatchError::AlreadyExists(copy_str(rname)));
    }
    let x = new_register(rname, radd, bpath)?;
    let ghost xg = x;
    insert_by_offset(cs, RegisterCluster::Register(x));
    assert(rc_offset(RegisterCluster::Register(xg)) == xg.address_offset as u64);
    Ok(())
}

/// `x` is the cluster that the rule `h` adds under the name `name`.
pub open spec fn cluster_added(h: Seq<(YamlV, YamlV)>, bpath: BlockPath, name: Seq<char>, x: Cluster) -> bool {
    &&& exists|b: ClusterPatch| cluster_patch_is(b, h, Some(&bpath)) && #[trigger] cluster_built(b, name, Cluster { dim: None, ..x })
    &&& match dim_patch_spec(h)->Ok_0 {
        None => x.dim is None,
        Some(dp) => dim_patched(None, dp, x.dim),
    }
}

/// The error of building the cluster that the rule `h` adds, if any.
pub open spec fn cluster_add_err(h: Seq<(YamlV, YamlV)>) -> Option<ReadErr> {
    if cluster_read_err(h) is Some {
        cluster_read_err(h)
    } else if !(crate::patch::builders::int_entry(h, crate::patch::reg_builders::k_address_offset())->Ok_0 is Some
        && crate::patch::yaml_ext::entry(h, crate::patch::reg_builders::k_registers()) is Some && reset_fits(
        props_spec(h)->Ok_0,
    )) {
        Some(ReadErr::Invalid)
    } else {
        match dim_patch_spec(h) {
            Err(e) => Some(e),
            Ok(d) => if dim_buildable(d) {
                None
            } else {
                Some(ReadErr::Invalid)
            },
        }
    }
}

fn new_cluster(cname: &str, cadd: &YamlHash, bpath: &BlockPath) -> (r: Result<Cluster, PatchError>)
    ensures
        match cluster_add_err(cadd.view_pairs()) {
            Some(e) => failed_reading(r, e),
            None => r matches Ok(x) && cluster_added(cadd.view_pairs(), *bpath, cname@, x),
        },
{
    let b = make_cluster(cadd, Some(bpath))?;
    let ghost bb = b;
    let mut x = build_cluster(b, cname)?;
    let ghost x0 = x;
    match make_dim_element(cadd)? {
        None => {},
        Some(d) => {
            modify_dim(&mut x.dim, &d)?;
        },
    }
    assert(x0 == Cluster { dim: None, ..x });
    assert(cluster_patch_is(bb, cadd.view_pairs(), Some(bpath)) && cluster_built(bb, cname@, Cluster { dim: None, ..x }));
    Ok(x)
}

/// What adding the cluster `cname` as `h` describes makes of the members
/// `cs`: `after`, with the outcome `r`.
pub open spec fn cluster_add_outcome(
    cs: Seq<RegisterCluster>,
    cname: Seq<char>,
    h: Seq<(YamlV, YamlV)>,
    bpath: BlockPath,
    r: Result<(), PatchError>,
    after: Seq<RegisterCluster>,
) -> bool {
    if has_cluster_named(cs, cname) {
        failed_with(r, PatchErrorKind::AlreadyExists) && after == cs
    } else {
        match cluster_add_err(h) {
            Some(e) => failed_reading(r, e) && after == cs,
            None => r is Ok && exists|p: int, x: Cluster|
                #![trigger cluster_added(h, bpath, cname, x), adding_at(member_offsets(cs), x.address_offset as u64, p)]
                cluster_added(h, bpath, cname, x) && adding_at(member_offsets(cs), x.address_offset as u64, p)
                    && after == cs.insert(p, RegisterCluster::Cluster(x)),
        }
    }
}

/// Add cname given by cadd to ptag
pub fn add_cluster_to(cs: &mut Vec<RegisterCluster>, cname: &str, cadd: &YamlHash, bpath: &BlockPath) -> (r: Result<(), PatchError>)
    ensures
        cluster_add_outcome(old(cs)@, cname@, cadd.view_pairs(), *bpath, r, final(cs)@),
{
    if find_named(cs, cname, true) {
        return Err(PatchError::AlreadyExists(copy_str(cname)));
    }
    let x = new_cluster(cname, cadd, bpath)?;
    let ghost xg = x;
    insert_by_offset(cs, RegisterCluster::Cluster(x));
    assert(rc_offset(RegisterCluster::Cluster(xg)) == xg.address_offset as u64);
    Ok(())
}

/// The text `access`.
pub open spec fn k_access_key() -> Seq<char> {
    seq!['a', 'c', 'c', 'e', 's', 's']
}

/// The array description that a rule makes of `d`: what [`modify_dim`]
/// gives, or `d` itself when the rule says nothing of arrays.
pub open spec fn dim_after(d: Option<DimElement>, h: Seq<(YamlV, YamlV)>, out: Option<DimElement>) -> bool {
    match dim_patch_spec(h)->Ok_0 {
        None => out == d,
        Some(dp) => dim_patched(d, dp, out),
    }
}

/// Changing the array description `d` as the rule `h` says can be done.
pub open spec fn dim_change_ok(d: Option<DimElement>, h: Seq<(YamlV, YamlV)>) -> bool {
    match dim_patch_spec(h)->Ok_0 {
        None => true,
        Some(dp) => d is Some || (dp.dim is Some && dp.dim_increment is Some),
    }
}

/// Changing register `a` as the modify rule `h` says succeeds.
pub open spec fn reg_mod_ok(a: Register, h: Seq<(YamlV, YamlV)>) -> bool {
    &&& dim_change_ok(a.dim, h)
    &&& text_of(h, k_derived_from()) is Some || reset_fits(props_merged(a.properties, props_spec(h)->Ok_0))
}

/// `o` is register `a` changed by the modify rule `h`: its array
/// description, then what [`reg_patched`] says, and an empty `access`
/// clears the access.
#[verifier::opaque]
pub open spec fn reg_modified(a: Register, h: Seq<(YamlV, YamlV)>, bpath: BlockPath, o: Register) -> bool {
    exists|b: RegPatch, mid: Option<DimElement>, o1: Register|
        #![trigger reg_patch_is(b, h, Some(&bpath)), dim_after(a.dim, h, mid), reg_patched(Register { dim: mid, ..a }, b, o1)]
        reg_patch_is(b, h, Some(&bpath)) && dim_after(a.dim, h, mid) && reg_patched(Register { dim: mid, ..a }, b, o1)
            && o == if text_of(h, k_access_key()) == Some(Seq::<char>::empty()) {
            Register { properties: RegisterProperties { access: None, ..o1.properties }, ..o1 }
        } else {
            o1
        }
}

/// Member `rc` is a register that `spec` selects.
pub open spec fn reg_sel(spec: Seq<char>, rc: RegisterCluster) -> bool {
    rc is Register && name_matches(rc_name(rc), spec)
}

/// Some register among `cs` is selected by `spec`.
pub open spec fn any_reg_sel(cs: Seq<RegisterCluster>, spec: Seq<char>) -> bool {
    exists|i: int| 0 <= i < cs.len() && #[trigger] reg_sel(spec, cs[i])
}

/// What changing the registers that `rspec` selects by the rule `h` makes of
/// the members `cs`: `after`, with the outcome `r`.
#[verifier::opaque]
pub open spec fn regs_mod_outcome(
    cs: Seq<RegisterCluster>,
    rspec: Seq<char>,
    h: Seq<(YamlV, YamlV)>,
    bpath: BlockPath,
    r: Result<(), PatchError>,
    after: Seq<RegisterCluster>,
) -> bool {
    let s = spec_parts(rspec).0;
    let ignore = spec_parts(rspec).1;
    if !kind_compiles(cs, s, Kinds::Registers) {
        failed_with(r, PatchErrorKind::InvalidSpec) && after == cs
    } else if !any_reg_sel(cs, s) && !ignore {
        failed_with(r, PatchErrorKind::NotFound) && after == cs
    } else if reg_read_err(h) is Some {
        failed_reading(r, reg_read_err(h)->Some_0) && after == cs
    } else if dim_patch_spec(h) is Err {
        failed_reading(r, dim_patch_spec(h)->Err_0) && after == cs
    } else if !regs_mod_ok(cs, s, h) {
        failed_with(r, PatchErrorKind::Invalid) && after == cs
    } else {
        regs_modified(cs, s, h, bpath, r, after)
    }
}

/// Every register that `s` selects among `cs` can be changed by the rule `h`.
pub open spec fn regs_mod_ok(cs: Seq<RegisterCluster>, s: Seq<char>, h: Seq<(YamlV, YamlV)>) -> bool {
    forall|i: int| 0 <= i < cs.len() && #[trigger] reg_sel(s, cs[i]) ==> reg_mod_ok(cs[i]->Register_0, h)
}

/// Once the rule reads: `after` has every register that `s` selects changed
/// by `h`, the other members as they were, when each can be changed.
pub open spec fn regs_modified(
    cs: Seq<RegisterCluster>,
    s: Seq<char>,
    h: Seq<(YamlV, YamlV)>,
    bpath: BlockPath,
    r: Result<(), PatchError>,
    after: Seq<RegisterCluster>,
) -> bool {
    &&& r is Ok
    &&& after.len() == cs.len() && forall|i: int|
        0 <= i < cs.len() ==> if #[trigger] reg_sel(s, cs[i]) {
            after[i] matches RegisterCluster::Register(o) && reg_modified(cs[i]->Register_0, h, bpath, o)
        } else {
            after[i] == cs[i]
        }
}

/// Whether register `x` can be changed by the modify rule `rmod` (see
/// [`reg_mod_ok`]).
fn reg_mod_check(x: &Register, rmod: &YamlHash, bpath: &BlockPath) -> (r: bool)
    requires
        reg_read_err(rmod.view_pairs()) is None,
        dim_patch_spec(rmod.view_pairs()) is Ok,
    ensures
        r == reg_mod_ok(*x, rmod.view_pairs()),
{
    let dim_ok = match make_dim_element(rmod) {
        Ok(Some(d)) => x.dim.is_some() || (d.dim.is_some() && d.dim_increment.is_some()),
        _ => true,
    };
    match make_register(rmod, Some(bpath)) {
        Ok(b) => dim_ok && (b.derived_from.is_some() || check_reset_merged(&x.properties, &b.properties)),
        Err(_) => false,
    }
}

fn check_reset_merged(a: &RegisterProperties, p: &RegisterProperties) -> (r: bool)
    ensures
        r == reset_fits(props_merged(*a, *p)),
{
    let size = if p.size.is_some() { p.size } else { a.size };
    let rv = if p.reset_value.is_some() { p.reset_value } else { a.reset_value };
    match (size, rv) {
        (Some(sz), Some(v)) => sz >= 64 || v >> sz == 0,
        _ => true,
    }
}

/// Changes register `x` as the modify rule `rmod` says (see
/// [`reg_modified`]).
#[verifier::rlimit(60)]
fn modify_one_register(x: &mut Register, rmod: &YamlHash, bpath: &BlockPath)
    requires
        reg_read_err(rmod.view_pairs()) is None,
        dim_patch_spec(rmod.view_pairs()) is Ok,
        reg_mod_ok(*old(x), rmod.view_pairs()),
    ensures
        reg_modified(*old(x), rmod.view_pairs(), *bpath, *final(x)),
{
    proof {
        reveal_strlit("access");
        assert("access"@ =~= k_access_key());
    }
    let ghost a = *x;
    let ghost h = rmod.view_pairs();
    match make_dim_element(rmod) {
        Ok(Some(d)) => {
            let _ = modify_dim(&mut x.dim, &d);
        },
        _ => {},
    }
    let ghost mid = x.dim;
    assert(*x == Register { dim: mid, ..a });
    match make_register(rmod, Some(bpath)) {
        Ok(b) => {
            let ghost bb = b;
            let _ = x.modify_from(b);
            let ghost o1 = *x;
            let clear = match rmod.get_str("access") {
                Ok(Some(t)) => {
                    let e = t.unicode_len() == 0;
                    proof {
                        if e {
                            assert(t@ =~= Seq::<char>::empty());
                        }
                    }
                    e
                },
                _ => false,
            };
            assert(clear == (text_of(h, k_access_key()) == Some(Seq::<char>::empty())));
            if clear {
                x.properties.access = None;
                assert(*x == Register { properties: RegisterProperties { access: None, ..o1.properties }, ..o1 });
            }
            assert(reg_patch_is(bb, h, Some(bpath)) && dim_after(a.dim, h, mid) && reg_patched(
                Register { dim: mid, ..a },
                bb,
                o1,
            ));
            proof {
                reveal(reg_modified);
            }
        },
        Err(_) => {},
    }
}

/// Modify rspec inside ptag according to rmod
#[verifier::rlimit(60)]
pub fn modify_registers_in(cs: &mut Vec<RegisterCluster>, rspec: &str, rmod: &YamlHash, bpath: &BlockPath) -> (r: Result<(), PatchError>)
    ensures
        regs_mod_outcome(old(cs)@, rspec@, rmod.view_pairs(), *bpath, r, final(cs)@),
{
    proof {
        reveal(regs_mod_outcome);
    }
    let ghost h = rmod.view_pairs();
    let (spec, ignore) = rspec.spec();
    let flags = match select_flags(cs, spec, Kinds::Registers) {
        None => {
            return Err(PatchError::InvalidSpec(copy_str(spec)));
        },
        Some(f) => f,
    };
    let mut any = false;
    let mut k: usize = 0;
    while k < flags.len()
        invariant
            k <= flags@.len(),
            flags@.len() == cs@.len(),
            forall|j: int| 0 <= j < cs@.len() ==> flags@[j] == (of_kind(Kinds::Registers, #[trigger] cs@[j]) && name_matches(rc_name(cs@[j]), spec@)),
            any <==> exists|j: int| 0 <= j < k && #[trigger] reg_sel(spec@, cs@[j]),
        decreases flags.len() - k,
    {
        if flags[k] {
            any = true;
            assert(reg_sel(spec@, cs@[k as int]));
        } else {
            assert(!reg_sel(spec@, cs@[k as int]));
        }
        k = k + 1;
    }
    if !any && !ignore {
        return Err(PatchError::NotFound(copy_str(spec)));
    }
    match make_register(rmod, Some(bpath)) {
        Ok(_) => {},
        Err(e) => {
            return Err(e);
        },
    }
    match make_dim_element(rmod) {
        Ok(_) => {},
        Err(e) => {
            return Err(e);
        },
    }
    // Every selected register must take the change before any is changed.
    let ghost sel_ok = kind_compiles(cs@, spec@, Kinds::Registers) && (any_reg_sel(cs@, spec@) || ignore)
        && spec@ == spec_parts(rspec@).0 && ignore == spec_parts(rspec@).1 && cs@ == old(cs)@;
    assert(sel_ok);
    let mut j: usize = 0;
    while j < cs.len()
        invariant
            sel_ok,
            sel_ok == (kind_compiles(cs@, spec@, Kinds::Registers) && (any_reg_sel(cs@, spec@) || ignore)
                && spec@ == spec_parts(rspec@).0 && ignore == spec_parts(rspec@).1 && cs@ == old(cs)@),
            j <= cs@.len(),
            h == rmod.view_pairs(),
            reg_read_err(h) is None,
            dim_patch_spec(h) is Ok,
            flags@.len() == cs@.len(),
            forall|q: int| 0 <= q < cs@.len() ==> flags@[q] == (of_kind(Kinds::Registers, #[trigger] cs@[q]) && name_matches(rc_name(cs@[q]), spec@)),
            forall|q: int| 0 <= q < j && #[trigger] reg_sel(spec@, cs@[q]) ==> reg_mod_ok(cs@[q]->Register_0, h),
        decreases cs.len() - j,
    {
        if flags[j] {
            match &cs[j] {
                RegisterCluster::Register(x) => {
                    if !reg_mod_check(x, rmod, bpath) {
                        assert(reg_sel(spec@, cs@[j as int]) && !reg_mod_ok(cs@[j as int]->Register_0, h));
                        proof {
                            reveal(regs_mod_outcome);
                        }
                        return Err(PatchError::Invalid(copy_str(rc_name_of(&cs[j]))));
                    }
                },
                RegisterCluster::Cluster(_) => {},
            }
        }
        j = j + 1;
    }
    assert(regs_mod_ok(cs@, spec@, h));
    let ghost orig = cs@;
    let n = cs.len();
    let mut out: Vec<RegisterCluster> = Vec::new();
    let mut i: usize = 0;
    while i < n
        invariant
            n == orig.len(),
            h == rmod.view_pairs(),
            reg_read_err(h) is None,
            dim_patch_spec(h) is Ok,
            regs_mod_ok(orig, spec@, h),
            flags@.len() == n,
            forall|q: int| 0 <= q < n ==> flags@[q] == (of_kind(Kinds::Registers, #[trigger] orig[q]) && name_matches(rc_name(orig[q]), spec@)),
            i <= n,
            cs@ == orig.skip(i as int),
            out@.len() == i,
            forall|q: int|
                0 <= q < i ==> if #[trigger] reg_sel(spec@, orig[q]) {
                    out@[q] matches RegisterCluster::Register(o) && reg_modified(orig[q]->Register_0, h, *bpath, o)
                } else {
                    out@[q] == orig[q]
                },
        decreases n - i,
    {
        assert(cs@[0] == orig[i as int]);
        let rc = cs.remove(0);
        let newrc = match rc {
            RegisterCluster::Register(mut x) => {
                if flags[i] {
                    assert(reg_sel(spec@, orig[i as int]));
                    modify_one_register(&mut x, rmod, bpath);
                }
                RegisterCluster::Register(x)
            },
            RegisterCluster::Cluster(c) => RegisterCluster::Cluster(c),
        };
        out.push(newrc);
        i = i + 1;
        assert(cs@ =~= orig.skip(i as int));
    }
    *cs = out;
    Ok(())
}

/// Changing cluster `a` as the modify rule `h` says succeeds.
pub open spec fn cluster_mod_ok(a: Cluster, h: Seq<(YamlV, YamlV)>) -> bool {
    &&& dim_change_ok(a.dim, h)
    &&& text_of(h, k_derived_from()) is Some || reset_fits(props_merged(a.default_register_properties, props_spec(h)->Ok_0))
}

/// `o` is cluster `a` changed by the modify rule `h`: its array
/// description, then what [`cluster_patched`] says.
#[verifier::opaque]
pub open spec fn cluster_modified(a: Cluster, h: Seq<(YamlV, YamlV)>, bpath: BlockPath, o: Cluster) -> bool {
    exists|b: ClusterPatch, mid: Option<DimElement>|
        #![trigger cluster_patch_is(b, h, Some(&bpath)), dim_after(a.dim, h, mid)]
        cluster_patch_is(b, h, Some(&bpath)) && dim_after(a.dim, h, mid) && cluster_patched(Cluster { dim: mid, ..a }, b, o)
}

/// Member `rc` is a cluster that `spec` selects.
pub open spec fn cluster_sel(spec: Seq<char>, rc: RegisterCluster) -> bool {
    rc is Cluster && name_matches(rc_name(rc), spec)
}

/// Some cluster among `cs` is selected by `spec`.
pub open spec fn any_cluster_sel(cs: Seq<RegisterCluster>, spec: Seq<char>) -> bool {
    exists|i: int| 0 <= i < cs.len() && #[trigger] cluster_sel(spec, cs[i])
}

/// Every cluster that `s` selects among `cs` can be changed by the rule `h`.
pub open spec fn clusters_mod_ok(cs: Seq<RegisterCluster>, s: Seq<char>, h: Seq<(YamlV, YamlV)>) -> bool {
    forall|i: int| 0 <= i < cs.len() && #[trigger] cluster_sel(s, cs[i]) ==> cluster_mod_ok(cs[i]->Cluster_0, h)
}

/// `after` has every cluster that `s` selects changed by `h`, the other
/// members as they were.
pub open spec fn clusters_modified(cs: Seq<RegisterCluster>, s: Seq<char>, h: Seq<(YamlV, YamlV)>, bpath: BlockPath, after: Seq<RegisterCluster>) -> bool {
    after.len() == cs.len() && forall|i: int|
        0 <= i < cs.len() ==> if #[trigger] cluster_sel(s, cs[i]) {
            after[i] matches RegisterCluster::Cluster(o) && cluster_modified(cs[i]->Cluster_0, h, bpath, o)
        } else {
            after[i] == cs[i]
        }
}

/// What changing the clusters that `s` selects by the rule `h` makes of the
/// members `cs`, once it is known that some are selected (or that none need
/// be): `after`, with the outcome `r`.
#[verifier::opaque]
pub open spec fn clusters_mod_outcome(
    cs: Seq<RegisterCluster>,
    s: Seq<char>,
    h: Seq<(YamlV, YamlV)>,
    bpath: BlockPath,
    r: Result<(), PatchError>,
    after: Seq<RegisterCluster>,
) -> bool {
    if cluster_read_err(h) is Some {
        failed_reading(r, cluster_read_err(h)->Some_0) && after == cs
    } else if dim_patch_spec(h) is Err {
        failed_reading(r, dim_patch_spec(h)->Err_0) && after == cs
    } else if !clusters_mod_ok(cs, s, h) {
        failed_with(r, PatchErrorKind::Invalid) && after == cs
    } else {
        r is Ok && clusters_modified(cs, s, h, bpath, after)
    }
}

fn cluster_mod_check(x: &Cluster, cmod: &YamlHash, bpath: &BlockPath) -> (r: bool)
    requires
        cluster_read_err(cmod.view_pairs()) is None,
        dim_patch_spec(cmod.view_pairs()) is Ok,
    ensures
        r == cluster_mod_ok(*x, cmod.view_pairs()),
{
    let dim_ok = match make_dim_element(cmod) {
        Ok(Some(d)) => x.dim.is_some() || (d.dim.is_some() && d.dim_increment.is_some()),
        _ => true,
    };
    match make_cluster(cmod, Some(bpath)) {
        Ok(b) => dim_ok && (b.derived_from.is_some() || check_reset_merged(
            &x.default_register_properties,
            &b.default_register_properties,
        )),
        Err(_) => false,
    }
}

fn modify_one_cluster(x: &mut Cluster, cmod: &YamlHash, bpath: &BlockPath)
    requires
        cluster_read_err(cmod.view_pairs()) is None,
        dim_patch_spec(cmod.view_pairs()) is Ok,
        cluster_mod_ok(*old(x), cmod.view_pairs()),
    ensures
        cluster_modified(*old(x), cmod.view_pairs(), *bpath, *final(x)),
{
    let ghost a = *x;
    let ghost h = cmod.view_pairs();
    match make_dim_element(cmod) {
        Ok(Some(d)) => {
            let _ = modify_dim(&mut x.dim, &d);
        },
        _ => {},
    }
    let ghost mid = x.dim;
    assert(*x == Cluster { dim: mid, ..a });
    match make_cluster(cmod, Some(bpath)) {
        Ok(b) => {
            let ghost bb = b;
            let _ = x.modify_from(b);
            assert(cluster_patch_is(bb, h, Some(bpath)) && dim_after(a.dim, h, mid));
            proof {
                reveal(cluster_modified);
            }
        },
        Err(_) => {},
    }
}

/// Changes the clusters that `spec` selects among `cs` as `cmod` says.
#[verifier::loop_isolation(false)]
#[verifier::rlimit(60)]
fn modify_selected_clusters(cs: &mut Vec<RegisterCluster>, spec: &str, cmod: &YamlHash, bpath: &BlockPath) -> (r: Result<(), PatchError>)
    requires
        kind_compiles(old(cs)@, spec@, Kinds::Clusters),
    ensures
        clusters_mod_outcome(old(cs)@, spec@, cmod.view_pairs(), *bpath, r, final(cs)@),
{
    proof {
        reveal(clusters_mod_outcome);
    }
    let ghost h = cmod.view_pairs();
    let flags = match select_flags(cs, spec, Kinds::Clusters) {
        None => {
            return Err(PatchError::InvalidSpec(copy_str(spec)));
        },
        Some(f) => f,
    };
    match make_cluster(cmod, Some(bpath)) {
        Ok(_) => {},
        Err(e) => {
            return Err(e);
        },
    }
    match make_dim_element(cmod) {
        Ok(_) => {},
        Err(e) => {
            return Err(e);
        },
    }
    let mut j: usize = 0;
    while j < cs.len()
        invariant
            j <= cs@.len(),
            cs@ == old(cs)@,
            flags@.len() == cs@.len(),
            forall|q: int| 0 <= q < cs@.len() ==> flags@[q] == (of_kind(Kinds::Clusters, #[trigger] cs@[q]) && name_matches(rc_name(cs@[q]), spec@)),
            forall|q: int| 0 <= q < j && #[trigger] cluster_sel(spec@, cs@[q]) ==> cluster_mod_ok(cs@[q]->Cluster_0, h),
        decreases cs.len() - j,
    {
        if flags[j] {
            match &cs[j] {
                RegisterCluster::Cluster(x) => {
                    if !cluster_mod_check(x, cmod, bpath) {
                        assert(cluster_sel(spec@, cs@[j as int]) && !cluster_mod_ok(cs@[j as int]->Cluster_0, h));
                        proof {
                            reveal(clusters_mod_outcome);
                        }
                        return Err(PatchError::Invalid(copy_str(rc_name_of(&cs[j]))));
                    }
                },
                RegisterCluster::Register(_) => {},
            }
        }
        j = j + 1;
    }
    assert(clusters_mod_ok(cs@, spec@, h));
    let ghost orig = cs@;
    let n = cs.len();
    let mut out: Vec<RegisterCluster> = Vec::new();
    let mut i: usize = 0;
    while i < n
        invariant
            n == orig.len(),
            orig == old(cs)@,
            clusters_mod_ok(orig, spec@, h),
            flags@.len() == n,
            forall|q: int| 0 <= q < n ==> flags@[q] == (of_kind(Kinds::Clusters, #[trigger] orig[q]) && name_matches(rc_name(orig[q]), spec@)),
            i <= n,
            cs@ == orig.skip(i as int),
            out@.len() == i,
            forall|q: int|
                0 <= q < i ==> if #[trigger] cluster_sel(spec@, orig[q]) {
                    out@[q] matches RegisterCluster::Cluster(o) && cluster_modified(orig[q]->Cluster_0, h, *bpath, o)
                } else {
                    out@[q] == orig[q]
                },
        decreases n - i,
    {
        assert(cs@[0] == orig[i as int]);
        let rc = cs.remove(0);
        let newrc = match rc {
            RegisterCluster::Cluster(mut x) => {
                if flags[i] {
                    assert(cluster_sel(spec@, orig[i as int]));
                    modify_one_cluster(&mut x, cmod, bpath);
                }
                RegisterCluster::Cluster(x)
            },
            RegisterCluster::Register(x) => RegisterCluster::Register(x),
        };
        out.push(newrc);
        i = i + 1;
        assert(cs@ =~= orig.skip(i as int));
    }
    *cs = out;
    Ok(())
}

/// What changing the clusters that `cspec` selects by `h` makes of `cs`.
pub open spec fn clusters_mod_full(
    cs: Seq<RegisterCluster>,
    cspec: Seq<char>,
    h: Seq<(YamlV, YamlV)>,
    bpath: BlockPath,
    r: Result<(), PatchError>,
    after: Seq<RegisterCluster>,
) -> bool {
    let s = spec_parts(cspec).0;
    let ignore = spec_parts(cspec).1;
    if !kind_compiles(cs, s, Kinds::Clusters) {
        failed_with(r, PatchErrorKind::InvalidSpec) && after == cs
    } else if !any_cluster_sel(cs, s) && !ignore {
        failed_with(r, PatchErrorKind::NotFound) && after == cs
    } else {
        clusters_mod_outcome(cs, s, h, bpath, r, after)
    }
}

fn any_selected_flag(cs: &Vec<RegisterCluster>, flags: &Vec<bool>, Ghost(spec): Ghost<Seq<char>>, clusters: bool) -> (r: bool)
    requires
        flags@.len() == cs@.len(),
        forall|q: int| 0 <= q < cs@.len() ==> flags@[q] == (of_kind(if clusters { Kinds::Clusters } else { Kinds::Registers }, #[trigger] cs@[q]) && name_matches(rc_name(cs@[q]), spec)),
    ensures
        r == if clusters { any_cluster_sel(cs@, spec) } else { any_reg_sel(cs@, spec) },
{
    let mut k: usize = 0;
    while k < flags.len()
        invariant
            k <= flags@.len(),
            flags@.len() == cs@.len(),
            forall|q: int| 0 <= q < cs@.len() ==> flags@[q] == (of_kind(if clusters { Kinds::Clusters } else { Kinds::Registers }, #[trigger] cs@[q]) && name_matches(rc_name(cs@[q]), spec)),
            forall|q: int| 0 <= q < k ==> !flags@[q],
        decreases flags.len() - k,
    {
        if flags[k] {
            if clusters {
                assert(cluster_sel(spec, cs@[k as int]));
            } else {
                assert(reg_sel(spec, cs@[k as int]));
            }
            return true;
        }
        k = k + 1;
    }
    proof {
        if clusters {
            assert forall|q: int| 0 <= q < cs@.len() implies !#[trigger] cluster_sel(spec, cs@[q]) by {
                assert(!flags@[q]);
            }
        } else {
            assert forall|q: int| 0 <= q < cs@.len() implies !#[trigger] reg_sel(spec, cs@[q]) by {
                assert(!flags@[q]);
            }
        }
    }
    false
}

/// Modify cspec inside ptag according to cmod
pub fn modify_clusters_in(cs: &mut Vec<RegisterCluster>, cspec: &str, cmod: &YamlHash, bpath: &BlockPath) -> (r: Result<(), PatchError>)
    ensures
        clusters_mod_full(old(cs)@, cspec@, cmod.view_pairs(), *bpath, r, final(cs)@),
{
    let (spec, ignore) = cspec.spec();
    let flags = match select_flags(cs, spec, Kinds::Clusters) {
        None => {
            return Err(PatchError::InvalidSpec(copy_str(spec)));
        },
        Some(f) => f,
    };
    if !any_selected_flag(cs, &flags, Ghost(spec@), true) && !ignore {
        return Err(PatchError::NotFound(copy_str(spec)));
    }
    modify_selected_clusters(cs, spec, cmod, bpath)
}

/// What changing the registers, or else the clusters, that `rcspec` selects
/// by `h` makes of `cs`.
pub open spec fn child_mod_outcome(
    cs: Seq<RegisterCluster>,
    rcspec: Seq<char>,
    h: Seq<(YamlV, YamlV)>,
    bpath: BlockPath,
    r: Result<(), PatchError>,
    after: Seq<RegisterCluster>,
) -> bool {
    let s = spec_parts(rcspec).0;
    let ignore = spec_parts(rcspec).1;
    if kind_compiles(cs, s, Kinds::Registers) && !any_reg_sel(cs, s) && !ignore {
        if !kind_compiles(cs, s, Kinds::Clusters) {
            failed_with(r, PatchErrorKind::InvalidSpec) && after == cs
        } else if !any_cluster_sel(cs, s) {
            failed_with(r, PatchErrorKind::NotFound) && after == cs
        } else {
            clusters_mod_outcome(cs, s, h, bpath, r, after)
        }
    } else {
        regs_mod_outcome(cs, rcspec, h, bpath, r, after)
    }
}

/// Changes the registers that `rcspec` selects as `rcmod` says or, when none
/// is selected (and `rcspec` does not start with `?~`), the clusters.
pub fn modify_child_in(cs: &mut Vec<RegisterCluster>, rcspec: &str, rcmod: &YamlHash, bpath: &BlockPath) -> (r: Result<(), PatchError>)
    ensures
        child_mod_outcome(old(cs)@, rcspec@, rcmod.view_pairs(), *bpath, r, final(cs)@),
{
    let (spec, ignore) = rcspec.spec();
    let flags = match select_flags(cs, spec, Kinds::Registers) {
        None => {
            return modify_registers_in(cs, rcspec, rcmod, bpath);
        },
        Some(f) => f,
    };
    if !any_selected_flag(cs, &flags, Ghost(spec@), false) && !ignore {
        let cflags = match select_flags(cs, spec, Kinds::Clusters) {
            None => {
                return Err(PatchError::InvalidSpec(copy_str(spec)));
            },
            Some(f) => f,
        };
        if !any_selected_flag(cs, &cflags, Ghost(spec@), true) {
            return Err(PatchError::NotFound(copy_str(spec)));
        }
        return modify_selected_clusters(cs, spec, rcmod, bpath);
    }
    modify_registers_in(cs, rcspec, rcmod, bpath)
}

} // verus!
