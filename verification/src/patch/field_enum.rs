//! Adding enumerated values to the fields of a register.
use vstd::prelude::*;
use crate::model::{Access, Usage, EnumeratedValues, Field, Register};
use crate::patch::enums::{
    EnumSetV, EvErr, set_views, set_enum, set_enum_spec, check_usage, check_usage_spec, make_usage,
    make_usage_spec, make_ev_array, ev_array_spec, ev_name_spec, make_ev_name, failed_as, value_views,
};
use crate::patch::error::{PatchError, PatchErrorKind, failed_with, failed_on_yaml};
use crate::patch::register::{fields_of, fields_replaced, selects, names_compile, match_flags, pct_s, first_flag};
use crate::patch::yaml::{YamlV, YamlHash};
use crate::patch::yaml_ext::{entry, str_of, hash_of, YamlErrorV};
use crate::patch::{EnumAutoDerive, Spec, spec_parts};
use crate::text::{copy_str, opt_view, replace_all, replace_str, str_eq};

verus! {

/// The access that applies to field `f` in a register with access `reg`:
/// its own, else the register's, else read-write.
pub open spec fn field_access(f: Field, reg: Option<Access>) -> Access {
    match f.access {
        Some(a) => a,
        None => match reg {
            Some(a) => a,
            None => Access::ReadWrite,
        },
    }
}

/// The set of enumerated values that only refers to the set named `name`.
pub open spec fn derived_set(name: Seq<char>) -> EnumSetV {
    EnumSetV { name: None, usage: None, derived_from: Some(name), values: Seq::empty() }
}

/// What the rule adds to the fields it selects.
pub struct EnumPlan {
    /// The usage the rule asks for.
    pub usage: Option<Usage>,
    /// The access of the register.
    pub reg_access: Option<Access>,
    /// How fields other than the first get the values.
    pub derive: EnumAutoDerive,
    /// Whether values that are there may be replaced.
    pub replace: bool,
    /// The lowest offset among the selected fields.
    pub min_offset: u32,
    /// The name of the new values.
    pub name: Seq<char>,
    /// The name of the field at the lowest offset.
    pub fname: Seq<char>,
    /// The values read from the rule.
    pub values: Result<Seq<crate::patch::enums::EnumValueV>, EvErr>,
}

/// Whether field `a` needs its own copy of the values.
pub open spec fn gets_copy(p: EnumPlan, a: Field) -> bool {
    p.derive == EnumAutoDerive::Duplicate || a.bit_offset == p.min_offset
}

/// The values given to field `a` when it gets its own copy.
pub open spec fn own_set(p: EnumPlan, a: Field, cu: Usage) -> EnumSetV {
    EnumSetV {
        name: if a.bit_offset == p.min_offset { Some(p.name) } else { None },
        usage: make_usage_spec(field_access(a, p.reg_access), cu),
        derived_from: None,
        values: p.values->Ok_0,
    }
}

/// Whether the rule can be applied to field `a`.
pub open spec fn enum_update_ok(p: EnumPlan, a: Field) -> bool {
    let acc = field_access(a, p.reg_access);
    match check_usage_spec(acc, p.usage) {
        None => false,
        Some(cu) => if gets_copy(p, a) {
            p.values is Ok && p.values->Ok_0.len() > 0 && set_enum_spec(
                set_views(a.enumerated_values@),
                own_set(p, a, cu),
                cu,
                p.replace,
                acc,
            ) is Some
        } else if p.derive == EnumAutoDerive::Field {
            a.bit_width != 0
        } else {
            set_enum_spec(set_views(a.enumerated_values@), derived_set(p.name), cu, true, acc) is Some
        },
    }
}

/// `b` is field `a` once the rule has been applied to it.
pub open spec fn enum_updated(p: EnumPlan, a: Field, b: Field) -> bool {
    let acc = field_access(a, p.reg_access);
    let cu = check_usage_spec(acc, p.usage).unwrap();
    if gets_copy(p, a) {
        b == Field { enumerated_values: b.enumerated_values, ..a } && set_views(b.enumerated_values@)
            == set_enum_spec(set_views(a.enumerated_values@), own_set(p, a, cu), cu, p.replace, acc).unwrap()
    } else if p.derive == EnumAutoDerive::Field {
        b == Field {
            derived_from: b.derived_from,
            modified_write_values: None,
            write_constraint: None,
            enumerated_values: b.enumerated_values,
            ..a
        } && opt_view(b.derived_from) == Some(p.fname) && b.enumerated_values@.len() == 0
    } else {
        b == Field { enumerated_values: b.enumerated_values, ..a } && set_views(b.enumerated_values@)
            == set_enum_spec(set_views(a.enumerated_values@), derived_set(p.name), cu, true, acc).unwrap()
    }
}

/// A set of enumerated values that only refers to `name`.
fn make_derived_set(name: &str) -> (r: EnumeratedValues)
    ensures
        r@ == derived_set(name@),
{
    let r = EnumeratedValues { name: None, usage: None, derived_from: Some(copy_str(name)), values: Vec::new() };
    assert(value_views(r.values@) =~= Seq::empty());
    r
}

/// Applies the rule to the fields that `flags` marks, in order; stops at the
/// first field it cannot be applied to.
fn apply_enum_updates(
    fs: &mut Vec<Field>,
    flags: &Vec<bool>,
    fmod: &YamlHash,
    usage: Option<Usage>,
    reg_access: Option<Access>,
    derive: EnumAutoDerive,
    replace: bool,
    min_offset: u32,
    name: &str,
    fname: &str,
) -> (r: Result<(), PatchError>)
    requires
        flags@.len() == old(fs)@.len(),
    ensures
        ({
            let p = EnumPlan {
                usage,
                reg_access,
                derive,
                replace,
                min_offset,
                name: name@,
                fname: fname@,
                values: ev_array_spec(fmod.view_pairs()),
            };
            &&& r is Ok <==> forall|i: int|
                0 <= i < flags@.len() && flags@[i] ==> enum_update_ok(p, #[trigger] old(fs)@[i])
            &&& r is Ok ==> final(fs)@.len() == old(fs)@.len() && forall|i: int|
                0 <= i < flags@.len() ==> if flags@[i] {
                    enum_updated(p, #[trigger] old(fs)@[i], final(fs)@[i])
                } else {
                    final(fs)@[i] == old(fs)@[i]
                }
        }),
{
    let ghost p = EnumPlan {
        usage,
        reg_access,
        derive,
        replace,
        min_offset,
        name: name@,
        fname: fname@,
        values: ev_array_spec(fmod.view_pairs()),
    };
    let ghost orig = fs@;
    let n = fs.len();
    let mut out: Vec<Field> = Vec::new();
    let mut i: usize = 0;
    while i < n
        invariant
            n == orig.len(),
            orig == old(fs)@,
            flags@.len() == n,
            i <= n,
            fs@ == orig.skip(i as int),
            out@.len() == i,
            p == (EnumPlan {
                usage,
                reg_access,
                derive,
                replace,
                min_offset,
                name: name@,
                fname: fname@,
                values: ev_array_spec(fmod.view_pairs()),
            }),
            forall|k: int| 0 <= k < i && flags@[k] ==> enum_update_ok(p, #[trigger] orig[k]),
            forall|k: int|
                0 <= k < i ==> if flags@[k] {
                    enum_updated(p, #[trigger] orig[k], out@[k])
                } else {
                    out@[k] == orig[k]
                },
        decreases n - i,
    {
        assert(fs@[0] == orig[i as int]);
        let mut f = fs.remove(0);
        let ghost a = f;
        if flags[i] {
            let acc = match f.access {
                Some(x) => x,
                None => match reg_access {
                    Some(x) => x,
                    None => Access::ReadWrite,
                },
            };
            assert(acc == field_access(a, reg_access));
            let cu = match check_usage(acc, usage) {
                Ok(u) => u,
                Err(e) => {
                    assert(!enum_update_ok(p, orig[i as int]));
                    *fs = restore(out, f, fs);
                    return Err(e);
                },
            };
            if derive == EnumAutoDerive::Duplicate || f.bit_offset == min_offset {
                let values = match make_ev_array(fmod) {
                    Ok(v) => v,
                    Err(e) => {
                        *fs = restore(out, f, fs);
                        return Err(e);
                    },
                };
                if values.len() == 0 {
                    let msg = copy_str(f.name.as_str());
                    *fs = restore(out, f, fs);
                    return Err(PatchError::Invalid(msg));
                }
                let set = EnumeratedValues {
                    name: if f.bit_offset == min_offset {
                        Some(copy_str(name))
                    } else {
                        None
                    },
                    usage: make_usage(acc, cu),
                    derived_from: None,
                    values,
                };
                assert(set@ == own_set(p, a, cu));
                match set_enum(&mut f, set, cu, replace, acc) {
                    Ok(()) => {},
                    Err(e) => {
                        *fs = restore(out, f, fs);
                        return Err(e);
                    },
                }
            } else if derive == EnumAutoDerive::Field {
                if f.bit_width == 0 {
                    let msg = copy_str(f.name.as_str());
                    *fs = restore(out, f, fs);
                    return Err(PatchError::Invalid(msg));
                }
                f.derived_from = Some(copy_str(fname));
                f.modified_write_values = None;
                f.write_constraint = None;
                f.enumerated_values = Vec::new();
            } else {
                match set_enum(&mut f, make_derived_set(name), cu, true, acc) {
                    Ok(()) => {},
                    Err(e) => {
                        assert(!enum_update_ok(p, orig[i as int]));
                        *fs = restore(out, f, fs);
                        return Err(e);
                    },
                }
            }
        }
        out.push(f);
        i = i + 1;
        assert(fs@ =~= orig.skip(i as int));
    }
    *fs = out;
    Ok(())
}

/// The fields again as one list after an interrupted pass (the values do not
/// matter to the caller, which reports the error).
fn restore(out: Vec<Field>, f: Field, rest: &mut Vec<Field>) -> (r: Vec<Field>) {
    let mut out = out;
    out.push(f);
    out.append(rest);
    out
}


/// The sets of enumerated values named `d` among the fields `fs`, in order.
pub open spec fn named_sets(fs: Seq<Field>, d: Seq<char>) -> Seq<EnumSetV>
    decreases fs.len(),
{
    if fs.len() == 0 {
        Seq::empty()
    } else {
        named_sets(fs.drop_last(), d) + set_views(fs.last().enumerated_values@).filter(
            |e: EnumSetV| e.name == Some(d),
        )
    }
}

/// The usage of a set of enumerated values; none for a derived one.
pub open spec fn set_usage(e: EnumSetV) -> Option<Usage> {
    if e.derived_from is Some {
        None
    } else {
        match e.usage {
            Some(u) => Some(u),
            None => Some(Usage::ReadWrite),
        }
    }
}

/// Whether the derivation rule can be applied to field `a`: its usage must be
/// that of the original set, and it may not derive from itself.
pub open spec fn derive_ok(a: Field, reg: Option<Access>, usage: Option<Usage>, d: Seq<char>, orig_usage: Usage) -> bool {
    let acc = field_access(a, reg);
    &&& check_usage_spec(acc, usage) == Some(orig_usage)
    &&& a.name@ != d
    &&& set_enum_spec(set_views(a.enumerated_values@), derived_set(d), orig_usage, true, acc) is Some
}

/// `b` is field `a` made to refer to the set `d`.
pub open spec fn derive_updated(a: Field, b: Field, reg: Option<Access>, d: Seq<char>, orig_usage: Usage) -> bool {
    b == Field { enumerated_values: b.enumerated_values, ..a } && set_views(b.enumerated_values@)
        == set_enum_spec(
        set_views(a.enumerated_values@),
        derived_set(d),
        orig_usage,
        true,
        field_access(a, reg),
    ).unwrap()
}

/// Makes the selected fields refer to the set `d`, in order; stops at the
/// first field it cannot do that for.
fn apply_derived(fs: &mut Vec<Field>, flags: &Vec<bool>, reg_access: Option<Access>, usage: Option<Usage>, d: &str, orig_usage: Usage) -> (r: Result<(), PatchError>)
    requires
        flags@.len() == old(fs)@.len(),
    ensures
        r is Ok <==> forall|i: int|
            0 <= i < flags@.len() && flags@[i] ==> derive_ok(#[trigger] old(fs)@[i], reg_access, usage, d@, orig_usage),
        r is Ok ==> final(fs)@.len() == old(fs)@.len() && forall|i: int|
            0 <= i < flags@.len() ==> if flags@[i] {
                derive_updated(#[trigger] old(fs)@[i], final(fs)@[i], reg_access, d@, orig_usage)
            } else {
                final(fs)@[i] == old(fs)@[i]
            },
{
    let ghost orig = fs@;
    let n = fs.len();
    let mut out: Vec<Field> = Vec::new();
    let mut i: usize = 0;
    while i < n
        invariant
            n == orig.len(),
            orig == old(fs)@,
            flags@.len() == n,
            i <= n,
            fs@ == orig.skip(i as int),
            out@.len() == i,
            forall|k: int| 0 <= k < i && flags@[k] ==> derive_ok(#[trigger] orig[k], reg_access, usage, d@, orig_usage),
            forall|k: int|
                0 <= k < i ==> if flags@[k] {
                    derive_updated(#[trigger] orig[k], out@[k], reg_access, d@, orig_usage)
                } else {
                    out@[k] == orig[k]
                },
        decreases n - i,
    {
        assert(fs@[0] == orig[i as int]);
        let mut f = fs.remove(0);
        if flags[i] {
            let acc = match f.access {
                Some(x) => x,
                None => match reg_access {
                    Some(x) => x,
                    None => Access::ReadWrite,
                },
            };
            let ok = match check_usage(acc, usage) {
                Ok(u) => u == orig_usage,
                Err(_) => false,
            };
            if !ok || str_eq(f.name.as_str(), d) {
                assert(!derive_ok(orig[i as int], reg_access, usage, d@, orig_usage));
                let msg = copy_str(f.name.as_str());
                *fs = restore(out, f, fs);
                return Err(PatchError::Invalid(msg));
            }
            match set_enum(&mut f, make_derived_set(d), orig_usage, true, acc) {
                Ok(()) => {},
                Err(e) => {
                    assert(!derive_ok(orig[i as int], reg_access, usage, d@, orig_usage));
                    *fs = restore(out, f, fs);
                    return Err(e);
                },
            }
        }
        out.push(f);
        i = i + 1;
        assert(fs@ =~= orig.skip(i as int));
    }
    *fs = out;
    Ok(())
}

/// The sets of enumerated values named `d` in `fs`.
fn find_named_sets(fs: &Vec<Field>, d: &str) -> (r: Vec<EnumeratedValues>)
    ensures
        set_views(r@) == named_sets(fs@, d@),
{
    let mut out: Vec<EnumeratedValues> = Vec::new();
    let mut i: usize = 0;
    while i < fs.len()
        invariant
            i <= fs@.len(),
            set_views(out@) == named_sets(fs@.take(i as int), d@),
        decreases fs.len() - i,
    {
        let evs = &fs[i].enumerated_values;
        let ghost pred = |e: EnumSetV| e.name == Some(d@);
        let ghost base = out@;
        let mut j: usize = 0;
        while j < evs.len()
            invariant
                j <= evs@.len(),
                evs == fs@[i as int].enumerated_values,
                pred == (|e: EnumSetV| e.name == Some(d@)),
                set_views(out@) == set_views(base) + set_views(evs@).take(j as int).filter(pred),
            decreases evs.len() - j,
        {
            let ghost before = out@;
            proof {
                set_views(evs@).take(j as int).lemma_filter_push(set_views(evs@)[j as int], pred);
                assert(set_views(evs@).take(j + 1) =~= set_views(evs@).take(j as int).push(
                    set_views(evs@)[j as int],
                ));
            }
            let is_named = match &evs[j].name {
                Some(n) => str_eq(n.as_str(), d),
                None => false,
            };
            if is_named {
                out.push(crate::patch::enums::copy_set(&evs[j]));
                assert(set_views(out@) =~= set_views(before).push(evs@[j as int]@));
            }
            j = j + 1;
        }
        proof {
            assert(set_views(evs@).take(j as int) =~= set_views(evs@));
            assert(fs@.take(i + 1).drop_last() =~= fs@.take(i as int));
        }
        i = i + 1;
    }
    assert(fs@.take(i as int) =~= fs@);
    out
}


/// The text `_replace_enum`.
pub open spec fn key_replace_enum() -> Seq<char> {
    seq!['_', 'r', 'e', 'p', 'l', 'a', 'c', 'e', '_', 'e', 'n', 'u', 'm']
}

/// The text `_derivedFrom`.
pub open spec fn key_derived_from() -> Seq<char> {
    seq!['_', 'd', 'e', 'r', 'i', 'v', 'e', 'd', 'F', 'r', 'o', 'm']
}

/// The text `_name`.
pub open spec fn key_name() -> Seq<char> {
    seq!['_', 'n', 'a', 'm', 'e']
}

/// Whether `spec` selects field `i` of `fs`.
pub open spec fn sel(fs: Seq<Field>, s: Seq<char>, i: int) -> bool {
    0 <= i < fs.len() && selects(s, fs[i])
}

/// The selected fields all have the same width.
pub open spec fn same_widths(fs: Seq<Field>, s: Seq<char>) -> bool {
    forall|i: int, j: int| sel(fs, s, i) && sel(fs, s, j) ==> #[trigger] fs[i].bit_width == #[trigger] fs[j].bit_width
}

/// `m` is the lowest offset of a selected field, and `mop` the first selected
/// field with it.
pub open spec fn lowest_at(fs: Seq<Field>, s: Seq<char>, m: u32, mop: int) -> bool {
    &&& sel(fs, s, mop) && fs[mop].bit_offset == m
    &&& forall|i: int| sel(fs, s, i) ==> m <= #[trigger] fs[i].bit_offset
    &&& forall|i: int| 0 <= i < mop && sel(fs, s, i) ==> #[trigger] fs[i].bit_offset != m
}

/// `mp` is the first selected field.
pub open spec fn first_sel(fs: Seq<Field>, s: Seq<char>, mp: int) -> bool {
    sel(fs, s, mp) && forall|i: int| 0 <= i < mp ==> !#[trigger] sel(fs, s, i)
}

/// `s` with its item at `from` moved to `to` (`to <= from`).
pub open spec fn moved(s: Seq<Field>, from: int, to: int) -> Seq<Field> {
    if from == to {
        s
    } else {
        s.remove(from).insert(to, s[from])
    }
}

/// What adding enumerated values by the rule `h0_in` to the fields that
/// `fspec` selects does to register `old_r`, giving `new_r` and `r` (see
/// [`Register::process_field_enum`]).
pub open spec fn field_enum_done(
    old_r: Register,
    new_r: Register,
    fspec: Seq<char>,
    h0_in: Seq<(YamlV, YamlV)>,
    usage: Option<Usage>,
    derive: EnumAutoDerive,
    r: Result<(), PatchError>,
) -> bool {
    ({
                let fs = fields_of(old_r);
                let nfs = fields_of(new_r);
                let h0 = h0_in;
                let re = entry(h0, key_replace_enum());
                let reg = old_r.properties.access;
                &&& r is Ok ==> fields_replaced(old_r, new_r)
                &&& match re {
                    Some(v) => hash_of(v) is None ==> failed_on_yaml(r, YamlErrorV::NotHash(v)),
                    None => true,
                }
                &&& (match re {
                    Some(v) => hash_of(v) is Some,
                    None => true,
                }) ==> {
                    let h = match re { Some(v) => hash_of(v).unwrap(), None => h0 };
                    let replace = re is Some;
                    let de = entry(h, key_derived_from());
                    &&& match de {
                        Some(v) => str_of(v) is None ==> failed_on_yaml(r, YamlErrorV::NotStr(v)),
                        None => true,
                    }
                    &&& (match de {
                        Some(v) => str_of(v) is Some,
                        None => false,
                    }) ==> {
                        let d = str_of(de.unwrap()).unwrap();
                        let sets = named_sets(fs, d);
                        &&& sets.len() == 0 ==> failed_with(r, PatchErrorKind::NotFound)
                        &&& sets.len() >= 2 ==> failed_with(r, PatchErrorKind::Invalid)
                        &&& sets.len() == 1 && set_usage(sets[0]) is None ==> failed_with(r, PatchErrorKind::Invalid)
                        &&& sets.len() == 1 && set_usage(sets[0]) is Some && !names_compile(fs, fspec)
                            ==> failed_with(r, PatchErrorKind::InvalidSpec)
                        &&& sets.len() == 1 && set_usage(sets[0]) is Some && names_compile(fs, fspec) ==> {
                            let ou = set_usage(sets[0]).unwrap();
                            &&& r is Ok <==> forall|i: int| sel(fs, fspec, i) ==> derive_ok(#[trigger] fs[i], reg, usage, d, ou)
                            &&& r is Ok ==> nfs.len() == fs.len() && forall|i: int| 0 <= i < fs.len() ==> if sel(fs, fspec, i) {
                                derive_updated(#[trigger] fs[i], nfs[i], reg, d, ou)
                            } else {
                                nfs[i] == fs[i]
                            }
                        }
                    }
                    &&& de is None ==> {
                        let s = spec_parts(fspec).0;
                        let ignore = spec_parts(fspec).1;
                        &&& !names_compile(fs, s) ==> failed_with(r, PatchErrorKind::InvalidSpec)
                        &&& names_compile(fs, s) && (forall|i: int| !#[trigger] sel(fs, s, i)) ==> (r is Ok <==> ignore) && (r is Ok ==> new_r == old_r) && (r is Err ==> failed_with(r, PatchErrorKind::NotFound))
                        &&& names_compile(fs, s) && (exists|i: int| #[trigger] sel(fs, s, i)) && !same_widths(fs, s) ==> failed_with(r, PatchErrorKind::Invalid)
                        &&& names_compile(fs, s) && (exists|i: int| #[trigger] sel(fs, s, i)) && same_widths(fs, s) ==> exists|m: u32, mop: int, mp: int|
                            lowest_at(fs, s, m, mop) && first_sel(fs, s, mp) && {
                            let ne = entry(h, key_name());
                            let name = match ne {
                                Some(v) => str_of(v),
                                None => ev_name_spec(replace_all(fs[mop].name@, pct_s(), Seq::empty()), usage),
                            };
                            &&& match ne {
                                Some(v) => str_of(v) is None ==> failed_on_yaml(r, YamlErrorV::NotStr(v)),
                                None => true,
                            }
                            &&& ne is None && name is None ==> failed_with(r, PatchErrorKind::Invalid)
                            &&& name is Some ==> {
                                let p = EnumPlan {
                                    usage,
                                    reg_access: reg,
                                    derive,
                                    replace,
                                    min_offset: m,
                                    name: name.unwrap(),
                                    fname: fs[mop].name@,
                                    values: ev_array_spec(h),
                                };
                                &&& r is Ok <==> forall|i: int| sel(fs, s, i) ==> enum_update_ok(p, #[trigger] fs[i])
                                &&& r is Ok ==> exists|pre: Seq<Field>| pre.len() == fs.len() && (forall|i: int|
                                    0 <= i < fs.len() ==> if sel(fs, s, i) {
                                        enum_updated(p, #[trigger] fs[i], pre[i])
                                    } else {
                                        pre[i] == fs[i]
                                    }) && nfs == moved(pre, mop, mp)
                            }
                        }
                    }
                }
            })
}

impl Register {
    /// Add an enumeratedValues given by field to all fspec in rtag
    #[verifier::loop_isolation(false)]
    pub fn process_field_enum(
        &mut self,
        fspec: &str,
        fmod_in: &YamlHash,
        usage: Option<Usage>,
        derive: EnumAutoDerive,
    ) -> (r: Result<(), PatchError>)
        ensures
            field_enum_done(*old(self), *final(self), fspec@, fmod_in.view_pairs(), usage, derive, r),
    {
        proof {
            reveal_strlit("_replace_enum");
            reveal_strlit("_derivedFrom");
            reveal_strlit("_name");
            reveal_strlit("%s");
            reveal_strlit("");
            assert("_replace_enum"@ =~= key_replace_enum());
            assert("_derivedFrom"@ =~= key_derived_from());
            assert("_name"@ =~= key_name());
            assert("%s"@ =~= pct_s());
            assert(""@ =~= Seq::<char>::empty());
        }
        let ghost fs = fields_of(*self);
        let (fmod, replace) = match fmod_in.get_hash("_replace_enum") {
            Err(e) => {
                return Err(PatchError::Yaml(e));
            },
            Ok(Some(h)) => (h, true),
            Ok(None) => (fmod_in, false),
        };
        let reg_access = self.properties.access;
        let empty: Vec<Field> = Vec::new();
        match fmod.get_str("_derivedFrom") {
            Err(e) => {
                return Err(PatchError::Yaml(e));
            },
            Ok(Some(d)) => {
                let sets = match &self.fields {
                    Some(v) => find_named_sets(v, d),
                    None => find_named_sets(&empty, d),
                };
                if sets.len() == 0 {
                    return Err(PatchError::NotFound(copy_str(d)));
                }
                if sets.len() >= 2 {
                    return Err(PatchError::Invalid(copy_str(d)));
                }
                assert(set_views(sets@)[0] == sets@[0]@);
                let ou = if sets[0].derived_from.is_some() {
                    return Err(PatchError::Invalid(copy_str(d)));
                } else {
                    match sets[0].usage {
                        Some(u) => u,
                        None => Usage::ReadWrite,
                    }
                };
                let flags = match &self.fields {
                    Some(v) => match match_flags(v, fspec) {
                        None => {
                            return Err(PatchError::InvalidSpec(copy_str(fspec)));
                        },
                        Some(f) => f,
                    },
                    None => Vec::new(),
                };
                let mut v = match self.fields.take() {
                    Some(v) => v,
                    None => Vec::new(),
                };
                let res = apply_derived(&mut v, &flags, reg_access, usage, d, ou);
                self.fields = Some(v);
                res
            },
            Ok(None) => {
                let (fspec, ignore) = fspec.spec();
                let flags = match &self.fields {
                    Some(v) => match match_flags(v, fspec) {
                        None => {
                            return Err(PatchError::InvalidSpec(copy_str(fspec)));
                        },
                        Some(f) => f,
                    },
                    None => Vec::new(),
                };
                let mp = match first_flag(&flags) {
                    None => {
                        assert(forall|i: int| !#[trigger] sel(fs, fspec@, i)) by {
                            assert forall|i: int| !#[trigger] sel(fs, fspec@, i) by {
                                if sel(fs, fspec@, i) {
                                    assert(flags@[i]);
                                }
                            }
                        }
                        if ignore {
                            return Ok(());
                        }
                        return Err(PatchError::NotFound(copy_str(fspec)));
                    },
                    Some(i) => i,
                };
                assert(sel(fs, fspec@, mp as int));
                let fv: &Vec<Field> = match &self.fields {
                    Some(v) => v,
                    None => &empty,
                };
                assert(fv@ == fs);
                // The common width, the lowest offset and where it is.
                let width = fv[mp].bit_width;
                let mut m = fv[mp].bit_offset;
                let mut mop = mp;
                let nfl = flags.len();
                assert(mp < nfl);
                let mut k: usize = mp + 1;
                while k < fv.len()
                    invariant
                        fv@ == fs,
                        flags@.len() == fs.len(),
                        forall|j: int| 0 <= j < fs.len() ==> flags@[j] == selects(fspec@, #[trigger] fs[j]),
                        mp < k <= fs.len(),
                        first_sel(fs, fspec@, mp as int),
                        width == fs[mp as int].bit_width,
                        forall|j: int| 0 <= j < k && sel(fs, fspec@, j) ==> #[trigger] fs[j].bit_width == width,
                        sel(fs, fspec@, mop as int) && fs[mop as int].bit_offset == m && mop < k,
                        forall|j: int| 0 <= j < k && sel(fs, fspec@, j) ==> m <= #[trigger] fs[j].bit_offset,
                        forall|j: int| 0 <= j < mop && sel(fs, fspec@, j) ==> #[trigger] fs[j].bit_offset != m,
                    decreases fs.len() - k,
                {
                    assert(flags@[k as int] == selects(fspec@, fs[k as int]));
                    if flags[k] {
                        if fv[k].bit_width != width {
                            assert(!same_widths(fs, fspec@)) by {
                                assert(fs[k as int].bit_width != fs[mp as int].bit_width);
                            }
                            return Err(PatchError::Invalid(copy_str(fspec)));
                        }
                        if fv[k].bit_offset < m {
                            m = fv[k].bit_offset;
                            mop = k;
                        }
                    }
                    k = k + 1;
                }
                assert(same_widths(fs, fspec@));
                assert(lowest_at(fs, fspec@, m, mop as int));
                let fname = copy_str(fv[mop].name.as_str());
                let name = match fmod.get_str("_name") {
                    Err(e) => {
                        return Err(PatchError::Yaml(e));
                    },
                    Ok(Some(n)) => copy_str(n),
                    Ok(None) => {
                        let base = replace_str(fname.as_str(), "%s", "");
                        match make_ev_name(base.as_str(), usage) {
                            Err(e) => {
                                return Err(e);
                            },
                            Ok(n) => n,
                        }
                    },
                };
                let mut v = match self.fields.take() {
                    Some(v) => v,
                    None => Vec::new(),
                };
                let res = apply_enum_updates(&mut v, &flags, fmod, usage, reg_access, derive, replace, m, name.as_str(), fname.as_str());
                match res {
                    Err(e) => {
                        self.fields = Some(v);
                        return Err(e);
                    },
                    Ok(()) => {},
                }
                let ghost pre = v@;
                if mop != mp {
                    let f = v.remove(mop);
                    v.insert(mp, f);
                }
                assert(v@ =~= moved(pre, mop as int, mp as int));
                self.fields = Some(v);
                Ok(())
            },
        }
    }
}

} // verus!
