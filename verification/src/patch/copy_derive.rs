//! The rules that copy a register of a block under a new name and that make
//! registers derive from another one.
use vstd::prelude::*;
use crate::model::{DimElement, Register, RegisterCluster, RegisterProperties};
use crate::patch::block::{Kinds, kind_compiles, rc_name, rc_name_of};
use crate::patch::block_edit::{has_reg_named, reg_sel, any_reg_sel, select_flags};
use crate::patch::builders::{
    BlockPath, DimPatch, DimPatchV, ReadErr, block_text, dim_patch_spec, dim_patched, failed_reading, make_dim_element, modify_dim,
    text_entry, texts_of,
};
use crate::patch::duplicate::{reg_same, dup_register, dup_texts};
use crate::patch::error::{PatchError, PatchErrorKind, failed_with};
use crate::patch::field_edit::{dimable_name, check_dimable_name, dim_view};
use crate::patch::reg_builders::{
    RegPatch, build_register, dim_buildable, make_register, no_props, reg_build_ok, reg_built, reg_patch_is,
    reg_patch_ok, reg_patched, reg_read_err, set_text, text_of,
};
use crate::patch::yaml::{Yaml, YamlHash, YamlV, yv};
use crate::patch::{Spec, spec_parts};
use crate::text::{chars_of, copy_opt, copy_str, opt_view, push_char, str_eq, string_from_chars, sub_chars};

verus! {

/// The text `_from`.
pub open spec fn k_from() -> Seq<char> {
    seq!['_', 'f', 'r', 'o', 'm']
}

/// `i` is the position of the first register among `cs` called `name`.
pub open spec fn first_reg_named(cs: Seq<RegisterCluster>, name: Seq<char>, i: int) -> bool {
    &&& 0 <= i < cs.len()
    &&& cs[i] is Register
    &&& rc_name(cs[i]) == name
    &&& forall|j: int| 0 <= j < i ==> !(#[trigger] cs[j] is Register && rc_name(cs[j]) == name)
}

/// The position of the first register among `cs` called `name`.
pub fn find_reg(cs: &Vec<RegisterCluster>, name: &str) -> (r: Option<usize>)
    ensures
        match r {
            Some(i) => first_reg_named(cs@, name@, i as int),
            None => !has_reg_named(cs@, name@),
        },
{
    let mut i: usize = 0;
    while i < cs.len()
        invariant
            i <= cs@.len(),
            forall|j: int| 0 <= j < i ==> !(#[trigger] cs@[j] is Register && rc_name(cs@[j]) == name@),
        decreases cs.len() - i,
    {
        let is_reg = match &cs[i] {
            RegisterCluster::Register(_) => true,
            RegisterCluster::Cluster(_) => false,
        };
        if is_reg && str_eq(rc_name_of(&cs[i]), name) {
            return Some(i);
        }
        i = i + 1;
    }
    None
}

/// `out` is the register `src`, copied and changed by the rule `b`, then
/// named `rname` and without a display name.
pub open spec fn reg_copied(src: Register, b: RegPatch, rname: Seq<char>, out: Register) -> bool {
    exists|c: Register, b2: RegPatch|
        #![trigger reg_same(c, src), reg_patched(c, b2, out)]
        {
            &&& reg_same(c, src)
            &&& b2 == RegPatch { name: b2.name, display_name: b2.display_name, ..b }
            &&& b2.name matches Some(n) && n@ == rname
            &&& b2.display_name matches Some(d) && d@.len() == 0
            &&& reg_patched(c, b2, out)
        }
}

/// `o` is the members `a` with the register `x` in place of the first
/// register called `rname`, at that register's offset, or, when there is
/// none, with `x` added at the end.
pub open spec fn copy_placed(a: Seq<RegisterCluster>, rname: Seq<char>, x: Register, o: Seq<RegisterCluster>) -> bool {
    if has_reg_named(a, rname) {
        exists|t: int|
            first_reg_named(a, rname, t) && o == a.update(
                t,
                RegisterCluster::Register(Register { address_offset: (a[t]->Register_0).address_offset, ..x }),
            )
    } else {
        o == a.push(RegisterCluster::Register(x))
    }
}

/// What copying a register as the rule `h` says, under the name `rname`,
/// makes of the members `a`: `o`, with the outcome `r`.
pub open spec fn copy_outcome(
    a: Seq<RegisterCluster>,
    o: Seq<RegisterCluster>,
    r: Result<(), PatchError>,
    rname: Seq<char>,
    h: Seq<(YamlV, YamlV)>,
    bpath: BlockPath,
) -> bool {
    match text_entry(h, k_from()) {
        Err(e) => failed_reading(r, e) && o == a,
        Ok(None) => failed_with(r, PatchErrorKind::Invalid) && o == a,
        Ok(Some(s)) => if !has_reg_named(a, s) {
            failed_with(r, PatchErrorKind::NotFound) && o == a
        } else if reg_read_err(h) is Some {
            failed_reading(r, reg_read_err(h)->0) && o == a
        } else {
            exists|i: int, b: RegPatch|
                #![trigger first_reg_named(a, s, i), reg_patch_is(b, h, Some(&bpath))]
                {
                    &&& first_reg_named(a, s, i)
                    &&& reg_patch_is(b, h, Some(&bpath))
                    &&& if !reg_patch_ok(a[i]->Register_0, b) {
                        failed_with(r, PatchErrorKind::Invalid) && o == a
                    } else {
                        r is Ok && exists|x: Register|
                            #![trigger reg_copied(a[i]->Register_0, b, rname, x)]
                            reg_copied(a[i]->Register_0, b, rname, x) && copy_placed(a, rname, x, o)
                    }
                }
        },
    }
}

/// Adds the register `rname` to the block as a copy of the register that
/// the rule `rcopy` names under `_from`, changed as the rule says; a
/// register already called `rname` is replaced, and its offset kept.
pub fn copy_register_in(cs: &mut Vec<RegisterCluster>, rname: &str, rcopy: &YamlHash, bpath: &BlockPath) -> (r: Result<(), PatchError>)
    ensures
        copy_outcome(old(cs)@, final(cs)@, r, rname@, rcopy.view_pairs(), *bpath),
{
    proof {
        reveal_strlit("_from");
        assert("_from"@ =~= k_from());
    }
    let srcname = match rcopy.get_str("_from") {
        Ok(Some(s)) => s,
        Ok(None) => {
            return Err(PatchError::Invalid(copy_str(rname)));
        },
        Err(e) => {
            return Err(PatchError::Yaml(e));
        },
    };
    let si = match find_reg(cs, srcname) {
        Some(i) => i,
        None => {
            return Err(PatchError::NotFound(copy_str(srcname)));
        },
    };
    let b = make_register(rcopy, Some(bpath))?;
    let ghost bg = b;
    let mut source = match &cs[si] {
        RegisterCluster::Register(x) => dup_register(x),
        RegisterCluster::Cluster(_) => {
            proof {
                assert(false);
            }
            return Ok(());
        },
    };
    let ghost c = source;
    proof {
        reveal_strlit("");
    }
    let b2 = RegPatch { name: Some(copy_str(rname)), display_name: Some(copy_str("")), ..b };
    let ghost b2g = b2;
    match source.modify_from(b2) {
        Ok(()) => {},
        Err(e) => {
            assert(!reg_patch_ok(cs@[si as int]->Register_0, bg));
            return Err(e);
        },
    }
    let ghost x = source;
    assert(reg_copied(cs@[si as int]->Register_0, bg, rname@, x));
    let ghost a = cs@;
    match find_reg(cs, rname) {
        Some(t) => {
            let off = match &cs[t] {
                RegisterCluster::Register(y) => y.address_offset,
                RegisterCluster::Cluster(_) => {
                    proof {
                        assert(false);
                    }
                    0
                },
            };
            source.address_offset = off;
            cs.set(t, RegisterCluster::Register(source));
            assert(first_reg_named(a, rname@, t as int));
        },
        None => {
            cs.push(RegisterCluster::Register(source));
        },
    }
    assert(copy_placed(a, rname@, x, cs@));
    Ok(())
}


/// `k` is the place of the only `.` in `s`.
pub open spec fn single_dot_at(s: Seq<char>, k: int) -> bool {
    &&& 0 <= k < s.len()
    &&& s[k] == '.'
    &&& forall|j: int| 0 <= j < s.len() && j != k ==> #[trigger] s[j] != '.'
}

/// `s` holds a `.`.
pub open spec fn has_dot(s: Seq<char>) -> bool {
    exists|k: int| 0 <= k < s.len() && #[trigger] s[k] == '.'
}

/// The name that a derive rule inside the block `bpath` gives for the
/// register `d`: `cluster.register` is read as a sibling cluster of this
/// one (with the whole path written out); anything else stays as it is.
pub open spec fn derive_path(d: Seq<char>, bpath: BlockPath) -> Seq<char> {
    if bpath.path@.len() > 0 && exists|k: int| single_dot_at(d, k) {
        let k = choose|k: int| single_dot_at(d, k);
        block_text(bpath.peripheral@, texts_of(bpath.path@).drop_last().push(d.take(k))) + seq!['.'] + d.skip(k + 1)
    } else {
        d
    }
}

/// The name of the register to derive from, written out as
/// [`derive_path`] says; also whether `d` holds a `.`.
pub fn derive_path_of(d: &str, bpath: &BlockPath) -> (r: (String, bool))
    ensures
        r.0@ == derive_path(d@, *bpath),
        r.1 == has_dot(d@),
{
    let cs = chars_of(d);
    let n = cs.len();
    let mut ndots: usize = 0;
    let mut k: usize = 0;
    let mut i: usize = 0;
    while i < n
        invariant
            n == cs@.len(),
            cs@ == d@,
            i <= n,
            ndots <= 2,
            ndots == 0 ==> forall|j: int| 0 <= j < i ==> #[trigger] cs@[j] != '.',
            ndots >= 1 ==> k < i && cs@[k as int] == '.',
            ndots == 1 ==> forall|j: int| 0 <= j < i && j != k ==> #[trigger] cs@[j] != '.',
            ndots == 2 ==> exists|j: int| 0 <= j < i && j != k && #[trigger] cs@[j] == '.',
        decreases n - i,
    {
        if cs[i] == '.' {
            if ndots == 0 {
                k = i;
                ndots = 1;
            } else {
                assert(cs@[i as int] == '.');
                ndots = 2;
            }
        }
        i = i + 1;
    }
    if ndots == 1 {
        assert(single_dot_at(d@, k as int));
    } else if ndots == 2 {
        assert forall|k2: int| !single_dot_at(d@, k2) by {
            if single_dot_at(d@, k2) {
                let j = choose|j: int| 0 <= j < n && j != k && #[trigger] cs@[j] == '.';
                assert(d@[k as int] == '.');
            }
        }
    } else {
        assert forall|k2: int| !single_dot_at(d@, k2) by {
            if single_dot_at(d@, k2) {
                assert(d@[k2] == '.');
            }
        }
    }
    let dotted = ndots > 0;
    proof {
        if dotted {
            assert(d@[k as int] == '.');
        } else {
            assert(!has_dot(d@)) by {
                if has_dot(d@) {
                    let j = choose|j: int| 0 <= j < d@.len() && #[trigger] d@[j] == '.';
                    assert(cs@[j] == '.');
                }
            }
        }
    }
    if ndots == 1 && bpath.path.len() > 0 {
        proof {
            let kk = choose|k2: int| single_dot_at(d@, k2);
            assert(kk == k);
        }
        let cname = string_from_chars(&sub_chars(&cs, 0, k));
        let rname = string_from_chars(&sub_chars(&cs, k + 1, n));
        let mut path = dup_texts(&bpath.path);
        let ghost before = path@;
        path.pop();
        path.push(cname);
        proof {
            assert(texts_of(path@) =~= texts_of(bpath.path@).drop_last().push(d@.take(k as int)));
        }
        let p2 = BlockPath { peripheral: bpath.peripheral.clone(), path };
        let mut t = p2.to_text();
        push_char(&mut t, '.');
        t.append(rname.as_str());
        proof {
            assert(cs@.subrange(k + 1, n as int) =~= d@.skip(k + 1));
            assert(t@ =~= derive_path(d@, *bpath));
        }
        (t, dotted)
    } else {
        (copy_str(d), dotted)
    }
}

/// The first error of reading the derive rule `y`, if any: a text names
/// the register to derive from; a mapping names it under `_from` and may
/// change the registers and their array description.
pub open spec fn derive_read_err(y: YamlV) -> Option<ReadErr> {
    match y {
        YamlV::Str(_) => None,
        YamlV::Hash(h) => match text_entry(h, k_from()) {
            Err(e) => Some(e),
            Ok(None) => Some(ReadErr::Invalid),
            Ok(Some(_)) => match dim_patch_spec(h) {
                Err(e) => Some(e),
                Ok(_) => reg_read_err(h),
            },
        },
        _ => Some(ReadErr::Invalid),
    }
}

/// The register that the derive rule `y` derives from, as written.
pub open spec fn derive_source(y: YamlV) -> Seq<char> {
    match y {
        YamlV::Str(s) => s,
        YamlV::Hash(h) => text_of(h, k_from())->0,
        _ => Seq::empty(),
    }
}

/// The change of array description that the derive rule `y` asks for.
pub open spec fn derive_dim(y: YamlV) -> Option<DimPatchV> {
    match y {
        YamlV::Hash(h) => dim_patch_spec(h)->Ok_0,
        _ => None,
    }
}

/// `b` is the change that the derive rule `y` makes to the registers it
/// selects: they derive from the register it names.
pub open spec fn derive_patch_is(b: RegPatch, y: YamlV, bpath: BlockPath) -> bool {
    &&& opt_view(b.derived_from) == Some(derive_path(derive_source(y), bpath))
    &&& match y {
        YamlV::Hash(h) => exists|b0: RegPatch|
            #[trigger] reg_patch_is(b0, h, Some(&bpath)) && b == RegPatch { derived_from: b.derived_from, ..b0 },
        _ => {
            &&& b.name is None
            &&& b.display_name is None
            &&& b.description is None
            &&& b.alternate_group is None
            &&& b.alternate_register is None
            &&& b.address_offset is None
            &&& b.properties == no_props()
            &&& b.write_constraint is None
            &&& b.fields is None
        },
    }
}

/// The array description `out` that the change `dp` makes of `d`.
pub open spec fn dim_after_p(d: Option<DimElement>, dp: Option<DimPatchV>, out: Option<DimElement>) -> bool {
    match dp {
        None => out == d,
        Some(p) => dim_patched(d, p, out),
    }
}

/// The change `dp` of array description can be made to `d`.
pub open spec fn dim_ok_p(d: Option<DimElement>, dp: Option<DimPatchV>) -> bool {
    match dp {
        None => true,
        Some(p) => d is Some || (p.dim is Some && p.dim_increment is Some),
    }
}

/// Some register among `a` that `spec` selects is called `name`.
pub open spec fn found_name(a: Seq<RegisterCluster>, spec: Seq<char>, name: Seq<char>) -> bool {
    exists|j: int| 0 <= j < a.len() && #[trigger] reg_sel(spec, a[j]) && rc_name(a[j]) == name
}

/// `out` is `x` derived from `d` instead when `x` derived from one of the
/// registers of `a` that `spec` selects.
pub open spec fn redirected(x: Register, a: Seq<RegisterCluster>, spec: Seq<char>, d: Seq<char>, out: Register) -> bool {
    match x.derived_from {
        Some(s) => if found_name(a, spec, s@) {
            opt_view(out.derived_from) == Some(d) && out == Register { derived_from: out.derived_from, ..x }
        } else {
            out == x
        },
        None => out == x,
    }
}

/// Member `o` is what deriving the registers of `a` that `spec` selects,
/// as `b` and `dp` say, makes of member `m` of `a`.
pub open spec fn derived_member(
    a: Seq<RegisterCluster>,
    spec: Seq<char>,
    d: Seq<char>,
    dp: Option<DimPatchV>,
    b: RegPatch,
    m: RegisterCluster,
    o: RegisterCluster,
) -> bool {
    match m {
        RegisterCluster::Register(x) => o is Register && if reg_sel(spec, m) {
            exists|mid: Option<DimElement>, y: Register|
                #![trigger dim_after_p(x.dim, dp, mid), reg_patched(Register { dim: mid, ..x }, b, y)]
                dim_after_p(x.dim, dp, mid) && reg_patched(Register { dim: mid, ..x }, b, y) && redirected(
                    y,
                    a,
                    spec,
                    d,
                    o->Register_0,
                )
        } else {
            redirected(x, a, spec, d, o->Register_0)
        },
        RegisterCluster::Cluster(_) => o == m,
    }
}

/// The register `x` that a derive rule adds under the name `name`.
pub open spec fn derived_new(b: RegPatch, name: Seq<char>, dp: Option<DimPatchV>, x: Register) -> bool {
    &&& reg_built(b, name, Register { dim: None, ..x })
    &&& dim_after_p(None, dp, x.dim)
}

/// What deriving the registers of `a` that `spec` selects as `b` and `dp`
/// say makes of them: `o`, with the outcome `r`.
pub open spec fn derive_done(
    a: Seq<RegisterCluster>,
    o: Seq<RegisterCluster>,
    r: Result<(), PatchError>,
    spec: Seq<char>,
    ignore: bool,
    d: Seq<char>,
    dp: Option<DimPatchV>,
    b: RegPatch,
) -> bool {
    if any_reg_sel(a, spec) {
        if exists|i: int| 0 <= i < a.len() && #[trigger] reg_sel(spec, a[i]) && !dim_ok_p((a[i]->Register_0).dim, dp) {
            failed_with(r, PatchErrorKind::Invalid) && o == a
        } else {
            &&& r is Ok
            &&& o.len() == a.len()
            &&& forall|i: int| 0 <= i < a.len() ==> derived_member(a, spec, d, dp, b, #[trigger] a[i], o[i])
        }
    } else if ignore {
        r is Ok && o == a
    } else if !dimable_name(spec) || !reg_build_ok(b) || !dim_buildable(dp) {
        failed_with(r, PatchErrorKind::Invalid) && o == a
    } else {
        r is Ok && exists|x: Register| #[trigger] derived_new(b, spec, dp, x) && o == a.push(RegisterCluster::Register(x))
    }
}

/// What the derive rule `y` for the registers that `rspec` selects makes
/// of the members `a`: `o`, with the outcome `r`.
pub open spec fn derive_outcome(
    a: Seq<RegisterCluster>,
    o: Seq<RegisterCluster>,
    r: Result<(), PatchError>,
    rspec: Seq<char>,
    y: YamlV,
    bpath: BlockPath,
) -> bool {
    let (spec, ignore) = spec_parts(rspec);
    if derive_read_err(y) is Some {
        failed_reading(r, derive_read_err(y)->0) && o == a
    } else if !has_dot(derive_source(y)) && !has_reg_named(a, derive_source(y)) {
        failed_with(r, PatchErrorKind::NotFound) && o == a
    } else if !kind_compiles(a, spec, Kinds::Registers) {
        failed_with(r, PatchErrorKind::InvalidSpec) && o == a
    } else {
        exists|b: RegPatch|
            #[trigger] derive_patch_is(b, y, bpath) && derive_done(
                a,
                o,
                r,
                spec,
                ignore,
                derive_source(y),
                derive_dim(y),
                b,
            )
    }
}

/// Whether the change `dp` of array description can be made to the member
/// `rc`, a register.
fn dim_fits(rc: &RegisterCluster, dp: &Option<DimPatch>) -> (r: bool)
    ensures
        rc is Register ==> r == dim_ok_p((rc->Register_0).dim, dim_view(*dp)),
{
    match (rc, dp) {
        (RegisterCluster::Register(x), Some(p)) => x.dim.is_some() || (p.dim.is_some() && p.dim_increment.is_some()),
        _ => true,
    }
}

/// Changes register `x` as the derive change `b` says.
fn apply_derive(x: &mut Register, b: &RegPatch)
    requires
        b.derived_from is Some,
    ensures
        reg_patched(*old(x), *b, *final(x)),
{
    match &b.name {
        Some(n) => {
            x.name = n.clone();
        },
        None => {},
    }
    x.display_name = set_text_of(&x.display_name, &b.display_name);
    x.description = set_text_of(&x.description, &b.description);
    x.alternate_group = set_text_of(&x.alternate_group, &b.alternate_group);
    x.alternate_register = set_text_of(&x.alternate_register, &b.alternate_register);
    match b.address_offset {
        Some(o) => {
            x.address_offset = o;
        },
        None => {},
    }
    x.derived_from = copy_opt(&b.derived_from);
    x.fields = None;
    x.properties = crate::model::RegisterProperties {
        size: None,
        access: None,
        protection: None,
        reset_value: None,
        reset_mask: None,
    };
    x.datatype = None;
    x.modified_write_values = None;
    x.write_constraint = None;
}

/// The text `new` sets in place of `old` (see [`set_text`]).
fn set_text_of(old: &Option<String>, new: &Option<String>) -> (r: Option<String>)
    ensures
        opt_view(r) == set_text(opt_view(*old), opt_view(*new)),
{
    match new {
        Some(t) => if t.as_str().unicode_len() == 0 {
            None
        } else {
            Some(t.clone())
        },
        None => copy_opt(old),
    }
}

/// Whether `s` is one of `names`.
fn among(names: &Vec<String>, s: &str) -> (r: bool)
    ensures
        r == exists|j: int| 0 <= j < names@.len() && (#[trigger] names@[j])@ == s@,
{
    let mut j: usize = 0;
    while j < names.len()
        invariant
            j <= names@.len(),
            forall|q: int| 0 <= q < j ==> (#[trigger] names@[q])@ != s@,
        decreases names.len() - j,
    {
        if str_eq(names[j].as_str(), s) {
            return true;
        }
        j = j + 1;
    }
    false
}

/// Makes the registers that `rspec` selects derive from the register that
/// the rule `rderive` names (a text, or a mapping with `_from` that may also
/// change the registers and their array description); when none is
/// selected, a register of that name is added, unless `rspec` starts with
/// `?~`. Registers that derived from a selected one then derive from the
/// named register too.
pub fn derive_register_in(cs: &mut Vec<RegisterCluster>, rspec: &str, rderive: &Yaml, bpath: &BlockPath) -> (r: Result<(), PatchError>)
    ensures
        derive_outcome(old(cs)@, final(cs)@, r, rspec@, yv(*rderive), *bpath),
{
    let ghost a = cs@;
    let (spec, ignore) = rspec.spec();
    let (d, dp, b): (&str, Option<DimPatch>, RegPatch) = match rderive {
        Yaml::String(s) => {
            let (path, _) = derive_path_of(s.as_str(), bpath);
            let b = RegPatch {
                name: None,
                display_name: None,
                description: None,
                derived_from: Some(path),
                alternate_group: None,
                alternate_register: None,
                address_offset: None,
                properties: RegisterProperties {
                    size: None,
                    access: None,
                    protection: None,
                    reset_value: None,
                    reset_mask: None,
                },
                write_constraint: None,
                fields: None,
            };
            (s.as_str(), None, b)
        },
        Yaml::Hash(h) => {
            proof {
                reveal_strlit("_from");
                assert("_from"@ =~= k_from());
            }
            let from = match h.get_str("_from") {
                Ok(Some(t)) => t,
                Ok(None) => {
                    return Err(PatchError::Invalid(copy_str(rspec)));
                },
                Err(e) => {
                    return Err(PatchError::Yaml(e));
                },
            };
            let dp = make_dim_element(h)?;
            let mut b = make_register(h, Some(bpath))?;
            let ghost b0 = b;
            let (path, _) = derive_path_of(from, bpath);
            b.derived_from = Some(path);
            assert(reg_patch_is(b0, h.view_pairs(), Some(bpath)));
            (from, dp, b)
        },
        _ => {
            return Err(PatchError::Invalid(copy_str(rspec)));
        },
    };
    let ghost y = yv(*rderive);
    let ghost dpv = dim_view(dp);
    assert(d@ == derive_source(y));
    assert(dpv == derive_dim(y));
    assert(derive_patch_is(b, y, *bpath));
    let (_, dotted) = derive_path_of(d, bpath);
    if !dotted {
        if find_reg(cs, d).is_none() {
            return Err(PatchError::NotFound(copy_str(d)));
        }
    }
    let flags = match select_flags(cs, spec, Kinds::Registers) {
        None => {
            return Err(PatchError::InvalidSpec(copy_str(spec)));
        },
        Some(f) => f,
    };
    let n = cs.len();
    let mut any = false;
    let mut all_fit = true;
    let mut i: usize = 0;
    while i < n
        invariant
            n == a.len(),
            cs@ == a,
            flags@.len() == n,
            forall|j: int| 0 <= j < n ==> flags@[j] == reg_sel(spec@, #[trigger] a[j]),
            i <= n,
            any <==> exists|j: int| 0 <= j < i && #[trigger] reg_sel(spec@, a[j]),
            dpv == dim_view(dp),
            all_fit <==> forall|j: int| 0 <= j < i && #[trigger] reg_sel(spec@, a[j]) ==> dim_ok_p((a[j]->Register_0).dim, dpv),
        decreases n - i,
    {
        if flags[i] {
            assert(reg_sel(spec@, a[i as int]));
            any = true;
            if !dim_fits(&cs[i], &dp) {
                all_fit = false;
            }
        }
        i = i + 1;
    }
    if !all_fit {
        return Err(PatchError::Invalid(copy_str(rspec)));
    }
    if !any {
        if ignore {
            return Ok(());
        }
        check_dimable_name(spec)?;
        let ghost bg = b;
        let mut x = build_register(b, spec)?;
        let ghost x0 = x;
        match &dp {
            None => {},
            Some(p) => {
                match modify_dim(&mut x.dim, p) {
                    Ok(()) => {},
                    Err(e) => {
                        assert(!dim_buildable(dpv));
                        return Err(e);
                    },
                }
            },
        }
        assert(x0 == Register { dim: None, ..x });
        assert(derived_new(bg, spec@, dpv, x));
        cs.push(RegisterCluster::Register(x));
        return Ok(());
    }
    // The names of the selected registers.
    let mut found: Vec<String> = Vec::new();
    let mut i: usize = 0;
    while i < n
        invariant
            n == a.len(),
            cs@ == a,
            flags@.len() == n,
            forall|j: int| 0 <= j < n ==> flags@[j] == reg_sel(spec@, #[trigger] a[j]),
            i <= n,
            forall|q: int| 0 <= q < found@.len() ==> found_name(a, spec@, (#[trigger] found@[q])@),
            forall|j: int|
                0 <= j < i && #[trigger] reg_sel(spec@, a[j]) ==> exists|q: int|
                    0 <= q < found@.len() && (#[trigger] found@[q])@ == rc_name(a[j]),
        decreases n - i,
    {
        if flags[i] {
            let ghost before = found@;
            found.push(copy_str(rc_name_of(&cs[i])));
            assert(found@[before.len() as int]@ == rc_name(a[i as int]));
            assert forall|j: int| 0 <= j < i + 1 && #[trigger] reg_sel(spec@, a[j]) implies exists|q: int|
                0 <= q < found@.len() && (#[trigger] found@[q])@ == rc_name(a[j]) by {
                if j < i {
                    let q = choose|q: int| 0 <= q < before.len() && (#[trigger] before[q])@ == rc_name(a[j]);
                    assert(found@[q] == before[q]);
                } else {
                    assert(found@[before.len() as int]@ == rc_name(a[j]));
                }
            }
        }
        i = i + 1;
    }
    let mut out: Vec<RegisterCluster> = Vec::new();
    let mut i: usize = 0;
    while i < n
        invariant
            n == a.len(),
            i <= n,
            cs@ == a.skip(i as int),
            flags@.len() == n,
            forall|j: int| 0 <= j < n ==> flags@[j] == reg_sel(spec@, #[trigger] a[j]),
            forall|j: int| 0 <= j < n && #[trigger] reg_sel(spec@, a[j]) ==> dim_ok_p((a[j]->Register_0).dim, dpv),
            forall|q: int| 0 <= q < found@.len() ==> found_name(a, spec@, (#[trigger] found@[q])@),
            forall|j: int|
                0 <= j < n && #[trigger] reg_sel(spec@, a[j]) ==> exists|q: int|
                    0 <= q < found@.len() && (#[trigger] found@[q])@ == rc_name(a[j]),
            b.derived_from is Some,
            dpv == dim_view(dp),
            out@.len() == i,
            forall|j: int| 0 <= j < i ==> derived_member(a, spec@, d@, dpv, b, #[trigger] a[j], out@[j]),
        decreases n - i,
    {
        assert(cs@[0] == a[i as int]);
        let m = cs.remove(0);
        let ghost mg = m;
        let o = match m {
            RegisterCluster::Register(mut x) => {
                let ghost x0 = x;
                if flags[i] {
                    match &dp {
                        None => {},
                        Some(p) => {
                            match modify_dim(&mut x.dim, p) {
                                Ok(()) => {},
                                Err(_) => {
                                    proof {
                                        assert(false);
                                    }
                                },
                            }
                        },
                    }
                    let ghost mid = x.dim;
                    assert(x == Register { dim: mid, ..x0 });
                    apply_derive(&mut x, &b);
                    let ghost y = x;
                    let redirect = match &x.derived_from {
                        Some(s) => among(&found, s.as_str()),
                        None => false,
                    };
                    if redirect {
                        x.derived_from = Some(copy_str(d));
                    }
                    proof {
                        match y.derived_from {
                            Some(s) => {
                                if found_name(a, spec@, s@) {
                                    let j = choose|j: int| 0 <= j < a.len() && #[trigger] reg_sel(spec@, a[j]) && rc_name(a[j]) == s@;
                                    let q = choose|q: int| 0 <= q < found@.len() && (#[trigger] found@[q])@ == rc_name(a[j]);
                                    assert(found@[q]@ == s@);
                                }
                                if redirect {
                                    let q = choose|q: int| 0 <= q < found@.len() && (#[trigger] found@[q])@ == s@;
                                    assert(found_name(a, spec@, found@[q]@));
                                }
                            },
                            None => {},
                        }
                        assert(redirected(y, a, spec@, d@, x));
                        assert(dim_after_p(x0.dim, dpv, mid));
                    }
                } else {
                    let redirect = match &x.derived_from {
                        Some(s) => among(&found, s.as_str()),
                        None => false,
                    };
                    if redirect {
                        x.derived_from = Some(copy_str(d));
                    }
                    proof {
                        match x0.derived_from {
                            Some(s) => {
                                if found_name(a, spec@, s@) {
                                    let j = choose|j: int| 0 <= j < a.len() && #[trigger] reg_sel(spec@, a[j]) && rc_name(a[j]) == s@;
                                    let q = choose|q: int| 0 <= q < found@.len() && (#[trigger] found@[q])@ == rc_name(a[j]);
                                    assert(found@[q]@ == s@);
                                }
                                if redirect {
                                    let q = choose|q: int| 0 <= q < found@.len() && (#[trigger] found@[q])@ == s@;
                                    assert(found_name(a, spec@, found@[q]@));
                                }
                            },
                            None => {},
                        }
                        assert(redirected(x0, a, spec@, d@, x));
                    }
                }
                RegisterCluster::Register(x)
            },
            RegisterCluster::Cluster(c) => RegisterCluster::Cluster(c),
        };
        assert(derived_member(a, spec@, d@, dpv, b, mg, o));
        out.push(o);
        i = i + 1;
        assert(cs@ =~= a.skip(i as int));
    }
    *cs = out;
    Ok(())
}

} // verus!
