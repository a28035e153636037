//! Reading register and cluster rules out of a patch, and applying them.
use vstd::prelude::*;
use crate::model::{
    Access, Cluster, DimElement, Field, Register, RegisterCluster, RegisterProperties, WriteConstraint,
    access_of_text,
};
use crate::patch::builders::{
    BlockPath, Bits, DimPatch, FieldPatchV, ReadErr, build_field, dim_patch_spec, dim_patched, empty_to_none,
    failed_reading, field_built, field_patch_spec, fits, get_write_constraint, int_entry, k_derived_from,
    k_description, k_name, make_dim_element, make_field, modify_dim, quoted, text_entry, write_constraint_spec,
};
use crate::patch::error::{PatchError, PatchErrorKind, failed_with};
use crate::patch::yaml::{Yaml, YamlHash, YamlV, group_yaml_views, yv, yv_pairs};
use crate::patch::yaml_ext::{YamlError, YamlErrorV, entry, hash_of, str_of};
use crate::text::{copy_str, opt_view, replace_all, replace_str};

verus! {

/// `s` with the names of the block filled in: `` `peripheral` `` and
/// `` `block_path` ``, in that order.
pub open spec fn block_interpolated(p: BlockPath, s: Seq<char>) -> Seq<char> {
    let s1 = replace_all(s, quoted(seq!['p', 'e', 'r', 'i', 'p', 'h', 'e', 'r', 'a', 'l']), p.peripheral@);
    replace_all(s1, quoted(seq!['b', 'l', 'o', 'c', 'k', '_', 'p', 'a', 't', 'h']), p.text())
}

/// Fills in the names of the block in `s` (see [`block_interpolated`]).
pub fn block_interpolate(p: &BlockPath, s: &str) -> (r: String)
    ensures
        r@ == block_interpolated(*p, s@),
{
    proof {
        reveal_strlit("`peripheral`");
        reveal_strlit("`block_path`");
        assert("`peripheral`"@ =~= quoted(seq!['p', 'e', 'r', 'i', 'p', 'h', 'e', 'r', 'a', 'l']));
        assert("`block_path`"@ =~= quoted(seq!['b', 'l', 'o', 'c', 'k', '_', 'p', 'a', 't', 'h']));
    }
    let bp = p.to_text();
    let s1 = replace_str(s, "`peripheral`", p.peripheral.as_str());
    replace_str(s1.as_str(), "`block_path`", bp.as_str())
}

/// An optional text with the names of the block filled in when there is one.
pub open spec fn opt_block_interpolated(p: Option<&BlockPath>, s: Option<Seq<char>>) -> Option<Seq<char>> {
    match s {
        None => None,
        Some(t) => match p {
            Some(q) => Some(block_interpolated(*q, t)),
            None => Some(t),
        },
    }
}

fn opt_block_interpolate(p: Option<&BlockPath>, s: Option<&str>) -> (r: Option<String>)
    ensures
        opt_view(r) == opt_block_interpolated(
            p,
            match s {
                Some(t) => Some(t@),
                None => None,
            },
        ),
{
    match s {
        None => None,
        Some(t) => match p {
            Some(q) => Some(block_interpolate(q, t)),
            None => Some(copy_str(t)),
        },
    }
}

/// The unsigned integer under `k`, taken modulo 2^32 (`get_u32`).
pub open spec fn u32_entry_of(h: Seq<(YamlV, YamlV)>, k: Seq<char>) -> Result<Option<u32>, ReadErr> {
    match int_entry(h, k) {
        Err(e) => Err(e),
        Ok(None) => Ok(None),
        Ok(Some(i)) => Ok(Some(i as u32)),
    }
}

/// The unsigned integer under `k`, taken modulo 2^64 (`get_u64`).
pub open spec fn u64_entry_of(h: Seq<(YamlV, YamlV)>, k: Seq<char>) -> Result<Option<u64>, ReadErr> {
    match int_entry(h, k) {
        Err(e) => Err(e),
        Ok(None) => Ok(None),
        Ok(Some(i)) => Ok(Some(i as u64)),
    }
}

/// The default register properties that a rule sets: `size`, `access`,
/// `resetValue`, `resetMask`.
pub open spec fn props_spec(h: Seq<(YamlV, YamlV)>) -> Result<RegisterProperties, ReadErr> {
    match u32_entry_of(h, seq!['s', 'i', 'z', 'e']) {
        Err(e) => Err(e),
        Ok(size) => match text_entry(h, seq!['a', 'c', 'c', 'e', 's', 's']) {
            Err(e) => Err(e),
            Ok(acc) => match u64_entry_of(h, seq!['r', 'e', 's', 'e', 't', 'V', 'a', 'l', 'u', 'e']) {
                Err(e) => Err(e),
                Ok(rv) => match u64_entry_of(h, seq!['r', 'e', 's', 'e', 't', 'M', 'a', 's', 'k']) {
                    Err(e) => Err(e),
                    Ok(rm) => Ok(
                        RegisterProperties {
                            size,
                            access: match acc {
                                Some(t) => access_of_text(t),
                                None => None,
                            },
                            protection: None,
                            reset_value: rv,
                            reset_mask: rm,
                        },
                    ),
                },
            },
        },
    }
}

fn get_u32_entry(h: &YamlHash, k: &str) -> (r: Result<Option<u32>, PatchError>)
    ensures
        match u32_entry_of(h.view_pairs(), k@) {
            Ok(o) => r == Ok::<Option<u32>, PatchError>(o),
            Err(e) => failed_reading(r, e),
        },
{
    match h.get_i64(k) {
        Ok(Some(i)) => Ok(Some(#[verifier::truncate] (i as u32))),
        Ok(None) => Ok(None),
        Err(e) => Err(PatchError::Yaml(e)),
    }
}

fn get_u64_entry(h: &YamlHash, k: &str) -> (r: Result<Option<u64>, PatchError>)
    ensures
        match u64_entry_of(h.view_pairs(), k@) {
            Ok(o) => r == Ok::<Option<u64>, PatchError>(o),
            Err(e) => failed_reading(r, e),
        },
{
    match h.get_i64(k) {
        Ok(Some(i)) => Ok(Some(#[verifier::truncate] (i as u64))),
        Ok(None) => Ok(None),
        Err(e) => Err(PatchError::Yaml(e)),
    }
}

fn get_text_entry<'a>(h: &'a YamlHash, k: &str) -> (r: Result<Option<&'a str>, PatchError>)
    ensures
        match text_entry(h.view_pairs(), k@) {
            Ok(o) => r matches Ok(x) && match (x, o) {
                (Some(a), Some(b)) => a@ == b,
                (None, None) => true,
                _ => false,
            },
            Err(e) => failed_reading(r, e),
        },
{
    match h.get_str(k) {
        Ok(x) => Ok(x),
        Err(e) => Err(PatchError::Yaml(e)),
    }
}

/// Reads the default register properties of a rule (see [`props_spec`]).
pub fn get_register_properties(h: &YamlHash) -> (r: Result<RegisterProperties, PatchError>)
    ensures
        match props_spec(h.view_pairs()) {
            Ok(p) => r == Ok::<RegisterProperties, PatchError>(p),
            Err(e) => failed_reading(r, e),
        },
{
    proof {
        reveal_strlit("size");
        reveal_strlit("access");
        reveal_strlit("resetValue");
        reveal_strlit("resetMask");
        assert("size"@ =~= seq!['s', 'i', 'z', 'e']);
        assert("access"@ =~= seq!['a', 'c', 'c', 'e', 's', 's']);
        assert("resetValue"@ =~= seq!['r', 'e', 's', 'e', 't', 'V', 'a', 'l', 'u', 'e']);
        assert("resetMask"@ =~= seq!['r', 'e', 's', 'e', 't', 'M', 'a', 's', 'k']);
    }
    let size = get_u32_entry(h, "size")?;
    let acc = get_text_entry(h, "access")?;
    let rv = get_u64_entry(h, "resetValue")?;
    let rm = get_u64_entry(h, "resetMask")?;
    Ok(
        RegisterProperties {
            size,
            access: match acc {
                Some(t) => Access::parse_str(t),
                None => None,
            },
            protection: None,
            reset_value: rv,
            reset_mask: rm,
        },
    )
}

/// The reset value fits in the size (what checking register properties
/// asks).
pub open spec fn reset_fits(p: RegisterProperties) -> bool {
    match (p.size, p.reset_value) {
        (Some(s), Some(v)) => fits(v, s),
        _ => true,
    }
}

pub fn check_reset(p: &RegisterProperties) -> (r: bool)
    ensures
        r == reset_fits(*p),
{
    match (p.size, p.reset_value) {
        (Some(s), Some(v)) => s >= 64 || v >> s == 0,
        _ => true,
    }
}

/// `b` with every property that `p` sets taken from `p`.
pub open spec fn props_merged(a: RegisterProperties, p: RegisterProperties) -> RegisterProperties {
    RegisterProperties {
        size: if p.size is Some { p.size } else { a.size },
        access: if p.access is Some { p.access } else { a.access },
        protection: if p.protection is Some { p.protection } else { a.protection },
        reset_value: if p.reset_value is Some { p.reset_value } else { a.reset_value },
        reset_mask: if p.reset_mask is Some { p.reset_mask } else { a.reset_mask },
    }
}

pub fn merge_props(a: &RegisterProperties, p: &RegisterProperties) -> (r: RegisterProperties)
    ensures
        r == props_merged(*a, *p),
{
    RegisterProperties {
        size: if p.size.is_some() { p.size } else { a.size },
        access: if p.access.is_some() { p.access } else { a.access },
        protection: if p.protection.is_some() { p.protection } else { a.protection },
        reset_value: if p.reset_value.is_some() { p.reset_value } else { a.reset_value },
        reset_mask: if p.reset_mask.is_some() { p.reset_mask } else { a.reset_mask },
    }
}

/// No property set.
pub open spec fn no_props() -> RegisterProperties {
    RegisterProperties { size: None, access: None, protection: None, reset_value: None, reset_mask: None }
}

/// An array description built from a rule (`DimElementBuilder::build`):
/// `dim` and `dimIncrement` have to be given.
pub open spec fn dim_buildable(d: Option<crate::patch::builders::DimPatchV>) -> bool {
    match d {
        None => true,
        Some(dp) => dp.dim is Some && dp.dim_increment is Some,
    }
}

/// The error of building the field `fname: val` of a register rule, if any.
pub open spec fn field_entry_err(fname: YamlV, val: YamlV) -> Option<ReadErr> {
    match hash_of(val) {
        None => Some(ReadErr::Yaml(YamlErrorV::NotHash(val))),
        Some(fh) => match field_patch_spec(fh, None) {
            Err(e) => Some(e),
            Ok(fp) => match str_of(fname) {
                None => Some(ReadErr::Yaml(YamlErrorV::NotStr(fname))),
                Some(_) => if !(fp.bits matches Bits::Range(_, w, _) && w != 0) {
                    Some(ReadErr::Invalid)
                } else {
                    match dim_patch_spec(fh) {
                        Err(e) => Some(e),
                        Ok(d) => if dim_buildable(d) {
                            None
                        } else {
                            Some(ReadErr::Invalid)
                        },
                    }
                },
            },
        },
    }
}

/// `f` is the field that the entry `fname: val` builds.
pub open spec fn field_from_entry(fname: YamlV, val: YamlV, f: Field) -> bool {
    let fh = hash_of(val)->Some_0;
    &&& field_built(field_patch_spec(fh, None)->Ok_0, str_of(fname)->Some_0, Field { dim: None, ..f })
    &&& match dim_patch_spec(fh)->Ok_0 {
        None => f.dim is None,
        Some(dp) => dim_patched(None, dp, f.dim),
    }
}

/// The first error among the field entries `fs`.
pub open spec fn fields_err(fs: Seq<(YamlV, YamlV)>) -> Option<ReadErr>
    decreases fs.len(),
{
    if fs.len() == 0 {
        None
    } else {
        match fields_err(fs.drop_last()) {
            Some(e) => Some(e),
            None => field_entry_err(fs.last().0, fs.last().1),
        }
    }
}

/// `out` are the fields that the entries `fs` build.
pub open spec fn fields_from(fs: Seq<(YamlV, YamlV)>, out: Seq<Field>) -> bool {
    out.len() == fs.len() && forall|i: int| 0 <= i < fs.len() ==> field_from_entry(#[trigger] fs[i].0, fs[i].1, out[i])
}

/// Builds a field from the entry `fname: val` (see [`field_from_entry`]).
fn build_field_entry(fname: &Yaml, val: &Yaml) -> (r: Result<Field, PatchError>)
    ensures
        match field_entry_err(yv(*fname), yv(*val)) {
            Some(e) => failed_reading(r, e),
            None => r matches Ok(f) && field_from_entry(yv(*fname), yv(*val), f),
        },
{
    let fadd = match val.hash() {
        Ok(h) => h,
        Err(e) => {
            return Err(PatchError::Yaml(e));
        },
    };
    let fp = make_field(fadd, None)?;
    let name = match fname.str() {
        Ok(n) => n,
        Err(e) => {
            return Err(PatchError::Yaml(e));
        },
    };
    let mut f = build_field(&fp, name)?;
    let ghost f0 = f;
    match make_dim_element(fadd)? {
        None => {},
        Some(d) => {
            modify_dim(&mut f.dim, &d)?;
        },
    }
    assert(f0 == Field { dim: None, ..f });
    Ok(f)
}

proof fn lemma_fields_err_prefix(fs: Seq<(YamlV, YamlV)>, i: int)
    requires
        0 <= i < fs.len(),
        fields_err(fs.take(i)) is None,
    ensures
        fields_err(fs.take(i + 1)) == field_entry_err(fs[i].0, fs[i].1),
{
    assert(fs.take(i + 1).drop_last() =~= fs.take(i));
}

proof fn lemma_fields_err_stays(fs: Seq<(YamlV, YamlV)>, i: int, e: ReadErr)
    requires
        0 <= i <= fs.len(),
        fields_err(fs.take(i)) == Some(e),
    ensures
        fields_err(fs) == Some(e),
    decreases fs.len() - i,
{
    if i < fs.len() {
        assert(fs.take(i + 1).drop_last() =~= fs.take(i));
        lemma_fields_err_stays(fs, i + 1, e);
    } else {
        assert(fs.take(i) =~= fs);
    }
}

/// Builds the fields that the entries of `h` describe (see [`fields_from`]).
pub fn build_fields(h: &YamlHash) -> (r: Result<Vec<Field>, PatchError>)
    ensures
        match fields_err(h.view_pairs()) {
            Some(e) => failed_reading(r, e),
            None => r matches Ok(v) && fields_from(h.view_pairs(), v@),
        },
{
    broadcast use group_yaml_views;
    let ghost fs = h.view_pairs();
    let mut out: Vec<Field> = Vec::new();
    let mut i: usize = 0;
    assert(fs.take(0) =~= Seq::<(YamlV, YamlV)>::empty());
    while i < h.entries.len()
        invariant
            fs == h.view_pairs(),
            fs.len() == h.entries@.len(),
            i <= fs.len(),
            fields_err(fs.take(i as int)) is None,
            out@.len() == i,
            forall|k: int| 0 <= k < i ==> field_from_entry(#[trigger] fs[k].0, fs[k].1, out@[k]),
        decreases h.entries.len() - i,
    {
        proof {
            crate::patch::yaml::lemma_yv_pairs(h.entries@);
            lemma_fields_err_prefix(fs, i as int);
        }
        assert(fs[i as int] == (yv(h.entries@[i as int].0), yv(h.entries@[i as int].1)));
        match build_field_entry(&h.entries[i].0, &h.entries[i].1) {
            Ok(f) => {
                out.push(f);
            },
            Err(e) => {
                proof {
                    let er = field_entry_err(fs[i as int].0, fs[i as int].1)->Some_0;
                    lemma_fields_err_stays(fs, i + 1, er);
                }
                return Err(e);
            },
        }
        i = i + 1;
    }
    assert(fs.take(i as int) =~= fs);
    Ok(out)
}

/// What a register rule sets.
pub struct RegPatch {
    pub name: Option<String>,
    pub display_name: Option<String>,
    pub description: Option<String>,
    pub derived_from: Option<String>,
    pub alternate_group: Option<String>,
    pub alternate_register: Option<String>,
    pub address_offset: Option<u32>,
    pub properties: RegisterProperties,
    pub write_constraint: Option<WriteConstraint>,
    pub fields: Option<Vec<Field>>,
}

/// The text `displayName`.
pub open spec fn k_display_name() -> Seq<char> {
    seq!['d', 'i', 's', 'p', 'l', 'a', 'y', 'N', 'a', 'm', 'e']
}

/// The text `alternateGroup`.
pub open spec fn k_alternate_group() -> Seq<char> {
    seq!['a', 'l', 't', 'e', 'r', 'n', 'a', 't', 'e', 'G', 'r', 'o', 'u', 'p']
}

/// The text `alternateRegister`.
pub open spec fn k_alternate_register() -> Seq<char> {
    seq!['a', 'l', 't', 'e', 'r', 'n', 'a', 't', 'e', 'R', 'e', 'g', 'i', 's', 't', 'e', 'r']
}

/// The text `addressOffset`.
pub open spec fn k_address_offset() -> Seq<char> {
    seq!['a', 'd', 'd', 'r', 'e', 's', 's', 'O', 'f', 'f', 's', 'e', 't']
}

/// The text `fields`.
pub open spec fn k_fields() -> Seq<char> {
    seq!['f', 'i', 'e', 'l', 'd', 's']
}

/// The error of reading the entry `k` as an optional mapping of fields.
pub open spec fn fields_entry_err(h: Seq<(YamlV, YamlV)>) -> Option<ReadErr> {
    match entry(h, k_fields()) {
        None => None,
        Some(v) => match hash_of(v) {
            None => Some(ReadErr::Yaml(YamlErrorV::NotHash(v))),
            Some(fs) => fields_err(fs),
        },
    }
}

/// The first error of a text entry, if any.
pub open spec fn text_err(h: Seq<(YamlV, YamlV)>, k: Seq<char>) -> Option<ReadErr> {
    match text_entry(h, k) {
        Err(e) => Some(e),
        Ok(_) => None,
    }
}

/// The first error of reading a register rule `h`, in the order the rule's
/// entries are read; `None` when it reads.
pub open spec fn reg_read_err(h: Seq<(YamlV, YamlV)>) -> Option<ReadErr> {
    if text_err(h, k_display_name()) is Some {
        text_err(h, k_display_name())
    } else if text_err(h, k_description()) is Some {
        text_err(h, k_description())
    } else if text_err(h, k_derived_from()) is Some {
        text_err(h, k_derived_from())
    } else if text_err(h, k_alternate_group()) is Some {
        text_err(h, k_alternate_group())
    } else if text_err(h, k_alternate_register()) is Some {
        text_err(h, k_alternate_register())
    } else if props_spec(h) is Err {
        Some(props_spec(h)->Err_0)
    } else if write_constraint_spec(h) is Err {
        Some(write_constraint_spec(h)->Err_0)
    } else if fields_entry_err(h) is Some {
        fields_entry_err(h)
    } else if text_err(h, k_name()) is Some {
        text_err(h, k_name())
    } else {
        match int_entry(h, k_address_offset()) {
            Err(e) => Some(e),
            Ok(_) => None,
        }
    }
}

/// The text under `k`, when the rule reads.
pub open spec fn text_of(h: Seq<(YamlV, YamlV)>, k: Seq<char>) -> Option<Seq<char>> {
    text_entry(h, k)->Ok_0
}

/// `b` is what the register rule `h` sets, the names of the block `p`
/// filled into its description and `derivedFrom`.
pub open spec fn reg_patch_is(b: RegPatch, h: Seq<(YamlV, YamlV)>, p: Option<&BlockPath>) -> bool {
    &&& opt_view(b.name) == text_of(h, k_name())
    &&& opt_view(b.display_name) == text_of(h, k_display_name())
    &&& opt_view(b.description) == opt_block_interpolated(p, text_of(h, k_description()))
    &&& opt_view(b.derived_from) == opt_block_interpolated(p, text_of(h, k_derived_from()))
    &&& opt_view(b.alternate_group) == text_of(h, k_alternate_group())
    &&& opt_view(b.alternate_register) == text_of(h, k_alternate_register())
    &&& b.address_offset == match int_entry(h, k_address_offset())->Ok_0 {
        Some(i) => Some(i as u32),
        None => None,
    }
    &&& b.properties == props_spec(h)->Ok_0
    &&& b.write_constraint == match write_constraint_spec(h)->Ok_0 {
        Some(w) => w,
        None => None,
    }
    &&& match entry(h, k_fields()) {
        None => b.fields is None,
        Some(v) => b.fields matches Some(fs) && fields_from(hash_of(v)->Some_0, fs@),
    }
}

fn opt_copy(o: Option<&str>) -> (r: Option<String>)
    ensures
        opt_view(r) == match o {
            Some(t) => Some(t@),
            None => None,
        },
{
    match o {
        Some(t) => Some(copy_str(t)),
        None => None,
    }
}

/// Reads what a register rule sets (see [`reg_patch_is`]).
#[verifier::rlimit(60)]
pub fn make_register(radd: &YamlHash, path: Option<&BlockPath>) -> (r: Result<RegPatch, PatchError>)
    ensures
        match reg_read_err(radd.view_pairs()) {
            Some(e) => failed_reading(r, e),
            None => r matches Ok(b) && reg_patch_is(b, radd.view_pairs(), path),
        },
{
    proof {
        reveal_strlit("displayName");
        reveal_strlit("description");
        reveal_strlit("derivedFrom");
        reveal_strlit("alternateGroup");
        reveal_strlit("alternateRegister");
        reveal_strlit("fields");
        reveal_strlit("name");
        reveal_strlit("addressOffset");
        assert("displayName"@ =~= k_display_name());
        assert("description"@ =~= k_description());
        assert("derivedFrom"@ =~= k_derived_from());
        assert("alternateGroup"@ =~= k_alternate_group());
        assert("alternateRegister"@ =~= k_alternate_register());
        assert("fields"@ =~= k_fields());
        assert("name"@ =~= k_name());
        assert("addressOffset"@ =~= k_address_offset());
    }
    let dn = get_text_entry(radd, "displayName")?;
    let desc = get_text_entry(radd, "description")?;
    let der = get_text_entry(radd, "derivedFrom")?;
    let ag = get_text_entry(radd, "alternateGroup")?;
    let ar = get_text_entry(radd, "alternateRegister")?;
    let props = get_register_properties(radd)?;
    let wc = get_write_constraint(radd)?;
    let fields = match radd.get_hash("fields") {
        Err(e) => {
            return Err(PatchError::Yaml(e));
        },
        Ok(None) => None,
        Ok(Some(fh)) => Some(build_fields(fh)?),
    };
    let nm = get_text_entry(radd, "name")?;
    let off = match radd.get_i64("addressOffset") {
        Err(e) => {
            return Err(PatchError::Yaml(e));
        },
        Ok(Some(i)) => Some(#[verifier::truncate] (i as u32)),
        Ok(None) => None,
    };
    Ok(
        RegPatch {
            name: opt_copy(nm),
            display_name: opt_copy(dn),
            description: opt_block_interpolate(path, desc),
            derived_from: opt_block_interpolate(path, der),
            alternate_group: opt_copy(ag),
            alternate_register: opt_copy(ar),
            address_offset: off,
            properties: props,
            write_constraint: match wc {
                Some(w) => w,
                None => None,
            },
            fields,
        },
    )
}

/// A text that a rule sets, an empty one clearing it (`empty_to_none`).
pub open spec fn set_text(old: Option<Seq<char>>, new: Option<Seq<char>>) -> Option<Seq<char>> {
    match new {
        Some(t) => empty_to_none(t),
        None => old,
    }
}

fn set_opt_text(old: Option<String>, new: Option<String>) -> (r: Option<String>)
    ensures
        opt_view(r) == set_text(opt_view(old), opt_view(new)),
{
    match new {
        Some(t) => if t.as_str().unicode_len() == 0 {
            None
        } else {
            Some(t)
        },
        None => old,
    }
}

/// `out` is register `a` changed as the rule `b` says
/// (`RegisterInfo::modify_from`): a rule that derives the register drops its
/// fields and properties; otherwise its properties are merged.
pub open spec fn reg_patched(a: Register, b: RegPatch, out: Register) -> bool {
    &&& out.name@ == match b.name {
        Some(n) => n@,
        None => a.name@,
    }
    &&& opt_view(out.display_name) == set_text(opt_view(a.display_name), opt_view(b.display_name))
    &&& opt_view(out.description) == set_text(opt_view(a.description), opt_view(b.description))
    &&& opt_view(out.alternate_group) == set_text(opt_view(a.alternate_group), opt_view(b.alternate_group))
    &&& opt_view(out.alternate_register) == set_text(
        opt_view(a.alternate_register),
        opt_view(b.alternate_register),
    )
    &&& out.address_offset == match b.address_offset {
        Some(o) => o,
        None => a.address_offset,
    }
    &&& out.read_action == a.read_action
    &&& out.dim == a.dim
    &&& if b.derived_from is Some {
        &&& opt_view(out.derived_from) == opt_view(b.derived_from)
        &&& out.fields is None
        &&& out.properties == no_props()
        &&& out.datatype is None
        &&& out.modified_write_values is None
        &&& out.write_constraint is None
    } else {
        &&& out.derived_from == a.derived_from
        &&& out.properties == props_merged(a.properties, b.properties)
        &&& out.datatype == a.datatype
        &&& out.modified_write_values == a.modified_write_values
        &&& out.write_constraint == if b.write_constraint is Some {
            b.write_constraint
        } else {
            a.write_constraint
        }
        &&& out.fields == match b.fields {
            Some(fs) => if fs@.len() == 0 {
                None
            } else {
                Some(fs)
            },
            None => a.fields,
        }
    }
}

/// Changing a register as `b` says succeeds: unless the rule derives it, the
/// merged reset value fits in the merged size.
pub open spec fn reg_patch_ok(a: Register, b: RegPatch) -> bool {
    b.derived_from is Some || reset_fits(props_merged(a.properties, b.properties))
}

impl Register {
    /// Changes this register as the rule `b` says (see [`reg_patched`]).
    pub fn modify_from(&mut self, b: RegPatch) -> (r: Result<(), PatchError>)
        ensures
            r is Ok <==> reg_patch_ok(*old(self), b),
            r is Ok ==> reg_patched(*old(self), b, *final(self)),
            r is Err ==> failed_with(r, PatchErrorKind::Invalid),
    {
        let ghost a = *self;
        let ghost bb = b;
        let RegPatch {
            name,
            display_name,
            description,
            derived_from,
            alternate_group,
            alternate_register,
            address_offset,
            properties,
            write_constraint,
            fields,
        } = b;
        if derived_from.is_none() {
            let merged = merge_props(&self.properties, &properties);
            if !check_reset(&merged) {
                return Err(PatchError::Invalid(self.name.clone()));
            }
        }
        match name {
            Some(n) => {
                self.name = n;
            },
            None => {},
        }
        let dn = self.display_name.take();
        self.display_name = set_opt_text(dn, display_name);
        let d = self.description.take();
        self.description = set_opt_text(d, description);
        let g = self.alternate_group.take();
        self.alternate_group = set_opt_text(g, alternate_group);
        let ar = self.alternate_register.take();
        self.alternate_register = set_opt_text(ar, alternate_register);
        match address_offset {
            Some(o) => {
                self.address_offset = o;
            },
            None => {},
        }
        if derived_from.is_some() {
            self.derived_from = derived_from;
            self.fields = None;
            self.properties = RegisterProperties {
                size: None,
                access: None,
                protection: None,
                reset_value: None,
                reset_mask: None,
            };
            self.datatype = None;
            self.modified_write_values = None;
            self.write_constraint = None;
        } else {
            self.properties = merge_props(&self.properties, &properties);
            if write_constraint.is_some() {
                self.write_constraint = write_constraint;
            }
            match fields {
                Some(fs) => {
                    self.fields = if fs.len() == 0 {
                        None
                    } else {
                        Some(fs)
                    };
                },
                None => {},
            }
        }
        Ok(())
    }
}

/// `out` is the register that the rule `b` builds under the name `name`
/// (`RegisterInfoBuilder::build`), not yet an array.
pub open spec fn reg_built(b: RegPatch, name: Seq<char>, out: Register) -> bool {
    &&& out.name@ == name
    &&& out.display_name == b.display_name
    &&& out.description == b.description
    &&& out.alternate_group == b.alternate_group
    &&& out.alternate_register == b.alternate_register
    &&& out.address_offset == b.address_offset.unwrap()
    &&& out.properties == b.properties
    &&& out.datatype is None
    &&& out.modified_write_values is None
    &&& out.write_constraint == b.write_constraint
    &&& out.read_action is None
    &&& out.fields == b.fields
    &&& out.derived_from == b.derived_from
    &&& out.dim is None
}

/// Building a register from `b` succeeds: the offset is given and the reset
/// value fits in the size.
pub open spec fn reg_build_ok(b: RegPatch) -> bool {
    b.address_offset is Some && reset_fits(b.properties)
}

/// Builds the register that `b` describes under the name `name` (see
/// [`reg_built`]).
pub fn build_register(b: RegPatch, name: &str) -> (r: Result<Register, PatchError>)
    ensures
        r is Ok <==> reg_build_ok(b),
        r matches Ok(x) ==> reg_built(b, name@, x),
        r is Err ==> failed_with(r, PatchErrorKind::Invalid),
{
    let off = match b.address_offset {
        Some(o) => o,
        None => {
            return Err(PatchError::Invalid(copy_str(name)));
        },
    };
    if !check_reset(&b.properties) {
        return Err(PatchError::Invalid(copy_str(name)));
    }
    Ok(
        Register {
            name: copy_str(name),
            display_name: b.display_name,
            description: b.description,
            alternate_group: b.alternate_group,
            alternate_register: b.alternate_register,
            address_offset: off,
            properties: b.properties,
            datatype: None,
            modified_write_values: None,
            write_constraint: b.write_constraint,
            read_action: None,
            fields: b.fields,
            derived_from: b.derived_from,
            dim: None,
        },
    )
}

/// The error of building the register `rname: val` of a cluster rule, if
/// any.
pub open spec fn reg_entry_err(rname: YamlV, val: YamlV) -> Option<ReadErr> {
    match hash_of(val) {
        None => Some(ReadErr::Yaml(YamlErrorV::NotHash(val))),
        Some(rh) => if reg_read_err(rh) is Some {
            reg_read_err(rh)
        } else {
            match str_of(rname) {
                None => Some(ReadErr::Yaml(YamlErrorV::NotStr(rname))),
                Some(_) => if !(int_entry(rh, k_address_offset())->Ok_0 is Some && reset_fits(
                    props_spec(rh)->Ok_0,
                )) {
                    Some(ReadErr::Invalid)
                } else {
                    match dim_patch_spec(rh) {
                        Err(e) => Some(e),
                        Ok(d) => if dim_buildable(d) {
                            None
                        } else {
                            Some(ReadErr::Invalid)
                        },
                    }
                },
            }
        },
    }
}

/// `r` is the register that the entry `rname: val` builds.
pub open spec fn reg_from_entry(rname: YamlV, val: YamlV, r: Register) -> bool {
    let rh = hash_of(val)->Some_0;
    &&& exists|b: RegPatch| reg_patch_is(b, rh, None) && #[trigger] reg_built(b, str_of(rname)->Some_0, Register { dim: None, ..r })
    &&& match dim_patch_spec(rh)->Ok_0 {
        None => r.dim is None,
        Some(dp) => dim_patched(None, dp, r.dim),
    }
}

/// The first error among the register entries `rs`.
pub open spec fn regs_err(rs: Seq<(YamlV, YamlV)>) -> Option<ReadErr>
    decreases rs.len(),
{
    if rs.len() == 0 {
        None
    } else {
        match regs_err(rs.drop_last()) {
            Some(e) => Some(e),
            None => reg_entry_err(rs.last().0, rs.last().1),
        }
    }
}

/// `out` are the registers that the entries `rs` build, as members.
pub open spec fn regs_from(rs: Seq<(YamlV, YamlV)>, out: Seq<RegisterCluster>) -> bool {
    out.len() == rs.len() && forall|i: int|
        0 <= i < rs.len() ==> (#[trigger] out[i] matches RegisterCluster::Register(r) && reg_from_entry(rs[i].0, rs[i].1, r))
}

/// Builds a register from the entry `rname: val` (see [`reg_from_entry`]).
pub fn build_register_entry(rname: &Yaml, val: &Yaml) -> (r: Result<Register, PatchError>)
    ensures
        match reg_entry_err(yv(*rname), yv(*val)) {
            Some(e) => failed_reading(r, e),
            None => r matches Ok(x) && reg_from_entry(yv(*rname), yv(*val), x),
        },
{
    let radd = match val.hash() {
        Ok(h) => h,
        Err(e) => {
            return Err(PatchError::Yaml(e));
        },
    };
    let b = make_register(radd, None)?;
    let name = match rname.str() {
        Ok(n) => n,
        Err(e) => {
            return Err(PatchError::Yaml(e));
        },
    };
    let ghost bb = b;
    let mut x = build_register(b, name)?;
    let ghost x0 = x;
    match make_dim_element(radd)? {
        None => {},
        Some(d) => {
            modify_dim(&mut x.dim, &d)?;
        },
    }
    assert(x0 == Register { dim: None, ..x });
    assert(reg_patch_is(bb, radd.view_pairs(), None) && reg_built(bb, name@, Register { dim: None, ..x }));
    Ok(x)
}

proof fn lemma_regs_err_stays(rs: Seq<(YamlV, YamlV)>, i: int, e: ReadErr)
    requires
        0 <= i <= rs.len(),
        regs_err(rs.take(i)) == Some(e),
    ensures
        regs_err(rs) == Some(e),
    decreases rs.len() - i,
{
    if i < rs.len() {
        assert(rs.take(i + 1).drop_last() =~= rs.take(i));
        lemma_regs_err_stays(rs, i + 1, e);
    } else {
        assert(rs.take(i) =~= rs);
    }
}

/// Builds the registers that the entries of `h` describe (see
/// [`regs_from`]).
pub fn build_registers(h: &YamlHash) -> (r: Result<Vec<RegisterCluster>, PatchError>)
    ensures
        match regs_err(h.view_pairs()) {
            Some(e) => failed_reading(r, e),
            None => r matches Ok(v) && regs_from(h.view_pairs(), v@),
        },
{
    broadcast use group_yaml_views;
    let ghost rs = h.view_pairs();
    let mut out: Vec<RegisterCluster> = Vec::new();
    let mut i: usize = 0;
    assert(rs.take(0) =~= Seq::<(YamlV, YamlV)>::empty());
    while i < h.entries.len()
        invariant
            rs == h.view_pairs(),
            rs.len() == h.entries@.len(),
            i <= rs.len(),
            regs_err(rs.take(i as int)) is None,
            out@.len() == i,
            forall|k: int|
                0 <= k < i ==> (#[trigger] out@[k] matches RegisterCluster::Register(r) && reg_from_entry(
                    rs[k].0,
                    rs[k].1,
                    r,
                )),
        decreases h.entries.len() - i,
    {
        proof {
            crate::patch::yaml::lemma_yv_pairs(h.entries@);
            assert(rs.take(i + 1).drop_last() =~= rs.take(i as int));
        }
        assert(rs[i as int] == (yv(h.entries@[i as int].0), yv(h.entries@[i as int].1)));
        match build_register_entry(&h.entries[i].0, &h.entries[i].1) {
            Ok(x) => {
                out.push(RegisterCluster::Register(x));
            },
            Err(e) => {
                proof {
                    let er = reg_entry_err(rs[i as int].0, rs[i as int].1)->Some_0;
                    lemma_regs_err_stays(rs, i + 1, er);
                }
                return Err(e);
            },
        }
        i = i + 1;
    }
    assert(rs.take(i as int) =~= rs);
    Ok(out)
}

/// What a cluster rule sets.
pub struct ClusterPatch {
    pub name: Option<String>,
    pub description: Option<String>,
    pub derived_from: Option<String>,
    pub address_offset: Option<u32>,
    pub default_register_properties: RegisterProperties,
    pub children: Option<Vec<RegisterCluster>>,
}

/// The text `registers`.
pub open spec fn k_registers() -> Seq<char> {
    seq!['r', 'e', 'g', 'i', 's', 't', 'e', 'r', 's']
}

/// The error of reading the registers of a cluster rule.
pub open spec fn regs_entry_err(h: Seq<(YamlV, YamlV)>) -> Option<ReadErr> {
    match entry(h, k_registers()) {
        None => None,
        Some(v) => match hash_of(v) {
            None => Some(ReadErr::Yaml(YamlErrorV::NotHash(v))),
            Some(rs) => regs_err(rs),
        },
    }
}

/// The first error of reading a cluster rule `h`; `None` when it reads.
pub open spec fn cluster_read_err(h: Seq<(YamlV, YamlV)>) -> Option<ReadErr> {
    if text_err(h, k_description()) is Some {
        text_err(h, k_description())
    } else if text_err(h, k_derived_from()) is Some {
        text_err(h, k_derived_from())
    } else if props_spec(h) is Err {
        Some(props_spec(h)->Err_0)
    } else if regs_entry_err(h) is Some {
        regs_entry_err(h)
    } else if text_err(h, k_name()) is Some {
        text_err(h, k_name())
    } else {
        match int_entry(h, k_address_offset()) {
            Err(e) => Some(e),
            Ok(_) => None,
        }
    }
}

/// `b` is what the cluster rule `h` sets, the names of the block `p` filled
/// into its description and `derivedFrom`.
pub open spec fn cluster_patch_is(b: ClusterPatch, h: Seq<(YamlV, YamlV)>, p: Option<&BlockPath>) -> bool {
    &&& opt_view(b.name) == text_of(h, k_name())
    &&& opt_view(b.description) == opt_block_interpolated(p, text_of(h, k_description()))
    &&& opt_view(b.derived_from) == opt_block_interpolated(p, text_of(h, k_derived_from()))
    &&& b.address_offset == match int_entry(h, k_address_offset())->Ok_0 {
        Some(i) => Some(i as u32),
        None => None,
    }
    &&& b.default_register_properties == props_spec(h)->Ok_0
    &&& match entry(h, k_registers()) {
        None => b.children is None,
        Some(v) => b.children matches Some(cs) && regs_from(hash_of(v)->Some_0, cs@),
    }
}

/// Reads what a cluster rule sets (see [`cluster_patch_is`]).
#[verifier::rlimit(60)]
pub fn make_cluster(cadd: &YamlHash, path: Option<&BlockPath>) -> (r: Result<ClusterPatch, PatchError>)
    ensures
        match cluster_read_err(cadd.view_pairs()) {
            Some(e) => failed_reading(r, e),
            None => r matches Ok(b) && cluster_patch_is(b, cadd.view_pairs(), path),
        },
{
    proof {
        reveal_strlit("description");
        reveal_strlit("derivedFrom");
        reveal_strlit("registers");
        reveal_strlit("name");
        reveal_strlit("addressOffset");
        assert("description"@ =~= k_description());
        assert("derivedFrom"@ =~= k_derived_from());
        assert("registers"@ =~= k_registers());
        assert("name"@ =~= k_name());
        assert("addressOffset"@ =~= k_address_offset());
    }
    let desc = get_text_entry(cadd, "description")?;
    let der = get_text_entry(cadd, "derivedFrom")?;
    let props = get_register_properties(cadd)?;
    let children = match cadd.get_hash("registers") {
        Err(e) => {
            return Err(PatchError::Yaml(e));
        },
        Ok(None) => None,
        Ok(Some(rh)) => Some(build_registers(rh)?),
    };
    let nm = get_text_entry(cadd, "name")?;
    let off = match cadd.get_i64("addressOffset") {
        Err(e) => {
            return Err(PatchError::Yaml(e));
        },
        Ok(Some(i)) => Some(#[verifier::truncate] (i as u32)),
        Ok(None) => None,
    };
    Ok(
        ClusterPatch {
            name: opt_copy(nm),
            description: opt_block_interpolate(path, desc),
            derived_from: opt_block_interpolate(path, der),
            address_offset: off,
            default_register_properties: props,
            children,
        },
    )
}

/// `out` is cluster `a` changed as the rule `b` says
/// (`ClusterInfo::modify_from`).
pub open spec fn cluster_patched(a: Cluster, b: ClusterPatch, out: Cluster) -> bool {
    &&& out.name@ == match b.name {
        Some(n) => n@,
        None => a.name@,
    }
    &&& opt_view(out.description) == set_text(opt_view(a.description), opt_view(b.description))
    &&& out.alternate_cluster == a.alternate_cluster
    &&& out.header_struct_name == a.header_struct_name
    &&& out.address_offset == match b.address_offset {
        Some(o) => o,
        None => a.address_offset,
    }
    &&& out.dim == a.dim
    &&& if b.derived_from is Some {
        &&& opt_view(out.derived_from) == opt_view(b.derived_from)
        &&& out.children@.len() == 0
        &&& out.default_register_properties == no_props()
    } else {
        &&& out.derived_from == a.derived_from
        &&& out.default_register_properties == props_merged(
            a.default_register_properties,
            b.default_register_properties,
        )
        &&& out.children == match b.children {
            Some(cs) => cs,
            None => a.children,
        }
    }
}

/// Changing a cluster as `b` says succeeds: unless the rule derives it, the
/// merged reset value fits in the merged size.
pub open spec fn cluster_patch_ok(a: Cluster, b: ClusterPatch) -> bool {
    b.derived_from is Some || reset_fits(props_merged(a.default_register_properties, b.default_register_properties))
}

impl Cluster {
    /// Changes this cluster as the rule `b` says (see [`cluster_patched`]).
    pub fn modify_from(&mut self, b: ClusterPatch) -> (r: Result<(), PatchError>)
        ensures
            r is Ok <==> cluster_patch_ok(*old(self), b),
            r is Ok ==> cluster_patched(*old(self), b, *final(self)),
            r is Err ==> failed_with(r, PatchErrorKind::Invalid),
    {
        let ClusterPatch { name, description, derived_from, address_offset, default_register_properties, children } =
            b;
        if derived_from.is_none() {
            let merged = merge_props(&self.default_register_properties, &default_register_properties);
            if !check_reset(&merged) {
                return Err(PatchError::Invalid(self.name.clone()));
            }
        }
        match name {
            Some(n) => {
                self.name = n;
            },
            None => {},
        }
        let d = self.description.take();
        self.description = set_opt_text(d, description);
        match address_offset {
            Some(o) => {
                self.address_offset = o;
            },
            None => {},
        }
        if derived_from.is_some() {
            self.derived_from = derived_from;
            self.children = Vec::new();
            self.default_register_properties = RegisterProperties {
                size: None,
                access: None,
                protection: None,
                reset_value: None,
                reset_mask: None,
            };
        } else {
            self.default_register_properties = merge_props(
                &self.default_register_properties,
                &default_register_properties,
            );
            match children {
                Some(cs) => {
                    self.children = cs;
                },
                None => {},
            }
        }
        Ok(())
    }
}

/// `out` is the cluster that the rule `b` builds under the name `name`
/// (`ClusterInfoBuilder::build`), not yet an array.
pub open spec fn cluster_built(b: ClusterPatch, name: Seq<char>, out: Cluster) -> bool {
    &&& out.name@ == name
    &&& opt_view(out.description) == set_text(None, opt_view(b.description))
    &&& out.alternate_cluster is None
    &&& out.header_struct_name is None
    &&& out.address_offset == b.address_offset.unwrap()
    &&& out.default_register_properties == b.default_register_properties
    &&& out.children == b.children.unwrap()
    &&& out.derived_from == b.derived_from
    &&& out.dim is None
}

/// Building a cluster from `b` succeeds: offset and registers are given and
/// the reset value fits in the size.
pub open spec fn cluster_build_ok(b: ClusterPatch) -> bool {
    b.address_offset is Some && b.children is Some && reset_fits(b.default_register_properties)
}

/// Builds the cluster that `b` describes under the name `name` (see
/// [`cluster_built`]).
pub fn build_cluster(b: ClusterPatch, name: &str) -> (r: Result<Cluster, PatchError>)
    ensures
        r is Ok <==> cluster_build_ok(b),
        r matches Ok(x) ==> cluster_built(b, name@, x),
        r is Err ==> failed_with(r, PatchErrorKind::Invalid),
{
    let ClusterPatch { name: _, description, derived_from, address_offset, default_register_properties, children } =
        b;
    let off = match address_offset {
        Some(o) => o,
        None => {
            return Err(PatchError::Invalid(copy_str(name)));
        },
    };
    let cs = match children {
        Some(cs) => cs,
        None => {
            return Err(PatchError::Invalid(copy_str(name)));
        },
    };
    if !check_reset(&default_register_properties) {
        return Err(PatchError::Invalid(copy_str(name)));
    }
    Ok(
        Cluster {
            name: copy_str(name),
            description: set_opt_text(None, description),
            alternate_cluster: None,
            header_struct_name: None,
            address_offset: off,
            default_register_properties,
            children: cs,
            derived_from,
            dim: None,
        },
    )
}

} // verus!
