//! Changing, adding and deriving the fields of a register.
use vstd::prelude::*;
use crate::model::{DimElement, Field, Register, WriteConstraint};
use crate::patch::builders::{
    block_text, texts_of,
    Bits, DimPatch, DimPatchV, FieldPatch, FieldPatchV, ReadErr, RegisterPath, build_field,
    dim_patch_spec, dim_patched, failed_reading, field_built, field_patch_spec, field_patched,
    field_valid, make_dim_element, make_field, modify_dim, text_entry, write_constraint_spec,
    get_write_constraint, k_access,
};
use crate::patch::error::{PatchError, PatchErrorKind, failed_with};
use crate::patch::register::{fields_of, fields_replaced, match_flags, names_compile, selects, first_flag};
use crate::patch::yaml::{YamlHash, YamlV};
use crate::patch::{Spec, spec_parts};
use crate::text::{copy_str, str_eq, chars_of, push_char};

verus! {

/// `out` is field `a` changed by a modify rule: its array description as
/// `dim` says, its write constraint as `wc` says (where the rule names one;
/// `none` removes it), then what the patch `b` sets; an empty `access` removes
/// the access.
pub open spec fn field_modified(
    a: Field,
    out: Field,
    b: FieldPatchV,
    dim: Option<DimPatchV>,
    wc: Option<Option<WriteConstraint>>,
    clear_access: bool,
) -> bool {
    exists|m: Field, o: Field|
        {
            &&& match dim {
                Some(d) => dim_patched(a.dim, d, m.dim) && m == Field { dim: m.dim, ..a },
                None => m == a,
            }
            &&& field_patched(
                Field {
                    write_constraint: match wc {
                        Some(w) => w,
                        None => m.write_constraint,
                    },
                    ..m
                },
                b,
                o,
            )
            &&& out == if clear_access {
                Field { access: None, ..o }
            } else {
                o
            }
        }
}

/// Whether the rule's `access` is the empty text.
pub open spec fn access_cleared(h: Seq<(YamlV, YamlV)>) -> bool {
    match crate::patch::yaml_ext::entry(h, k_access()) {
        Some(YamlV::Str(t)) => t.len() == 0,
        _ => false,
    }
}

impl Register {
    /// Modify fspec inside rtag according to fmod
    pub fn modify_field(&mut self, fspec: &str, fmod: &YamlHash, rpath: &RegisterPath) -> (r: Result<(), PatchError>)
        ensures
            ({
                let s = spec_parts(fspec@).0;
                let ignore = spec_parts(fspec@).1;
                let fs = fields_of(*old(self));
                let nfs = fields_of(*final(self));
                let h = fmod.view_pairs();
                let fp = field_patch_spec(h, Some(rpath));
                let dp = dim_patch_spec(h);
                let wc = write_constraint_spec(h);
                &&& !names_compile(fs, s) ==> failed_with(r, PatchErrorKind::InvalidSpec)
                &&& names_compile(fs, s) && fp is Err ==> failed_reading(r, fp->Err_0)
                &&& names_compile(fs, s) && fp is Ok && dp is Err ==> failed_reading(r, dp->Err_0)
                &&& names_compile(fs, s) && fp is Ok && dp is Ok && (forall|i: int| 0 <= i < fs.len() ==> !selects(s, #[trigger] fs[i])) ==> (r is Ok <==> ignore) && *final(self) == *old(self) && (r is Err ==> failed_with(r, PatchErrorKind::NotFound))
                &&& r is Ok ==> fields_replaced(*old(self), *final(self)) && nfs.len() == fs.len() && forall|i: int| 0 <= i < fs.len() ==> if selects(s, #[trigger] fs[i]) {
                    field_modified(fs[i], nfs[i], fp->Ok_0, dp->Ok_0, wc->Ok_0, access_cleared(h))
                } else {
                    nfs[i] == fs[i]
                }
            }),
    {
        let (fspec, ignore) = fspec.spec();
        let flags = match &self.fields {
            Some(v) => match match_flags(v, fspec) {
                None => {
                    return Err(PatchError::InvalidSpec(copy_str(fspec)));
                },
                Some(f) => f,
            },
            None => Vec::new(),
        };
        let ghost fs = fields_of(*self);
        let b = make_field(fmod, Some(rpath))?;
        let dim = make_dim_element(fmod)?;
        let wc = get_write_constraint(fmod)?;
        proof {
            reveal_strlit("access");
            reveal_strlit("");
            assert("access"@ =~= k_access());
        }
        assert(""@ =~= Seq::<char>::empty());
        let clear_access = match fmod.get_str("access") {
            Ok(Some(a)) => {
                assert(crate::patch::yaml_ext::entry(fmod.view_pairs(), k_access()) == Some(YamlV::Str(a@)));
                a.unicode_len() == 0
            },
            Ok(None) => {
                assert(crate::patch::yaml_ext::entry(fmod.view_pairs(), k_access()) is None);
                false
            },
            Err(_) => {
                assert(crate::patch::yaml_ext::entry(fmod.view_pairs(), k_access()) is Some);
                assert(crate::patch::yaml_ext::str_of(crate::patch::yaml_ext::entry(fmod.view_pairs(), k_access()).unwrap()) is None);
                false
            },
        };
        assert(clear_access == access_cleared(fmod.view_pairs()));
        match first_flag(&flags) {
            None => {
                if ignore {
                    return Ok(());
                }
                return Err(PatchError::NotFound(copy_str(fspec)));
            },
            Some(j) => {
                assert(flags@[j as int]);
                assert(selects(fspec@, fs[j as int]));
            },
        }
        let mut v = match self.fields.take() {
            Some(v) => v,
            None => Vec::new(),
        };
        let res = apply_modify(&mut v, &flags, &b, &dim, wc, clear_access, Ghost(fspec@));
        self.fields = Some(v);
        if res.is_err() {
            return Err(PatchError::Invalid(copy_str(fspec)));
        }
        proof {
            let h = fmod.view_pairs();
            assert(b@ == field_patch_spec(h, Some(rpath))->Ok_0);
            assert(dim_view(dim) == dim_patch_spec(h)->Ok_0);
            assert(wc == write_constraint_spec(h)->Ok_0);
        }
        Ok(())
    }
}


/// The content of an optional array patch.
pub open spec fn dim_view(d: Option<DimPatch>) -> Option<DimPatchV> {
    match d {
        Some(x) => Some(x@),
        None => None,
    }
}

/// Changes the fields that `flags` marks as a modify rule says, in order;
/// stops at the first one that cannot be changed.
fn apply_modify(
    fs: &mut Vec<Field>,
    flags: &Vec<bool>,
    b: &FieldPatch,
    dim: &Option<DimPatch>,
    wc: Option<Option<WriteConstraint>>,
    clear_access: bool,
    Ghost(spec): Ghost<Seq<char>>,
) -> (r: Result<(), PatchError>)
    requires
        flags@.len() == old(fs)@.len(),
    ensures
        final(fs)@.len() == old(fs)@.len(),
        r is Ok ==> forall|i: int|
            0 <= i < flags@.len() ==> if flags@[i] {
                field_modified(#[trigger] old(fs)@[i], final(fs)@[i], b@, dim_view(*dim), wc, clear_access)
            } else {
                final(fs)@[i] == old(fs)@[i]
            },
{
    let ghost orig = fs@;
    let ghost dv = dim_view(*dim);
    let n = fs.len();
    let mut out: Vec<Field> = Vec::new();
    let mut i: usize = 0;
    while i < n
        invariant
            n == orig.len(),
            orig == old(fs)@,
            dv == dim_view(*dim),
            flags@.len() == n,
            i <= n,
            fs@ == orig.skip(i as int),
            out@.len() == i,
            forall|k: int|
                0 <= k < i ==> if flags@[k] {
                    field_modified(#[trigger] orig[k], out@[k], b@, dv, wc, clear_access)
                } else {
                    out@[k] == orig[k]
                },
        decreases n - i,
    {
        assert(fs@[0] == orig[i as int]);
        let mut f = fs.remove(0);
        let ghost a = f;
        let mut failed = false;
        if flags[i] {
            match dim {
                Some(d) => {
                    if modify_dim(&mut f.dim, d).is_err() {
                        failed = true;
                    }
                },
                None => {},
            }
            let ghost m = f;
            match wc {
                Some(w) => {
                    f.write_constraint = w;
                },
                None => {},
            }
            if f.modify_from(b).is_err() {
                failed = true;
            }
            if clear_access {
                f.access = None;
            }
            if !failed {
                assert(field_modified(a, f, b@, dv, wc, clear_access));
            }
        }
        out.push(f);
        i = i + 1;
        assert(fs@ =~= orig.skip(i as int));
        if failed {
            let ghost o = out@;
            out.append(fs);
            *fs = out;
            assert(fs@.len() == orig.len());
            return Err(PatchError::Invalid(String::new()));
        }
    }
    *fs = out;
    Ok(())
}


/// Whether a patch gives the bits of a new field as a range of some width.
pub open spec fn bits_ok(fp: FieldPatchV) -> bool {
    match fp.bits {
        Bits::Range(_, w, _) => w != 0,
        _ => false,
    }
}

/// Whether an array patch can make a plain element an array.
pub open spec fn dim_ok(od: Option<DimPatchV>) -> bool {
    match od {
        Some(d) => d.dim is Some && d.dim_increment is Some,
        None => true,
    }
}

/// Whether some field of `fs` is named `n`.
pub open spec fn has_field_named(fs: Seq<Field>, n: Seq<char>) -> bool {
    exists|i: int| 0 <= i < fs.len() && #[trigger] fs[i].name@ == n
}

fn find_field_named(fs: &Vec<Field>, n: &str) -> (r: bool)
    ensures
        r == has_field_named(fs@, n@),
{
    let mut i: usize = 0;
    while i < fs.len()
        invariant
            i <= fs@.len(),
            forall|j: int| 0 <= j < i ==> fs@[j].name@ != n@,
        decreases fs.len() - i,
    {
        if str_eq(fs[i].name.as_str(), n) {
            return true;
        }
        i = i + 1;
    }
    false
}

/// `f` is the new field that an add rule describes: built from `fp`, named
/// `name`, and an array when `dp` says so.
pub open spec fn field_added(fp: FieldPatchV, dp: Option<DimPatchV>, name: Seq<char>, f: Field) -> bool {
    &&& field_built(fp, name, Field { dim: None, ..f })
    &&& match dp {
        None => f.dim is None,
        Some(d) => dim_patched(None, d, f.dim),
    }
}

impl Register {
    /// Add fname given by fadd to rtag
    pub fn add_field(&mut self, fname: &str, fadd: &YamlHash, rpath: &RegisterPath) -> (r: Result<(), PatchError>)
        ensures
            ({
                let fs = fields_of(*old(self));
                let h = fadd.view_pairs();
                let fp = field_patch_spec(h, Some(rpath));
                let dp = dim_patch_spec(h);
                &&& r is Err ==> *final(self) == *old(self)
                &&& has_field_named(fs, fname@) ==> failed_with(r, PatchErrorKind::AlreadyExists)
                &&& !has_field_named(fs, fname@) ==> {
                    &&& fp is Err ==> failed_reading(r, fp->Err_0)
                    &&& fp is Ok && !bits_ok(fp->Ok_0) ==> failed_with(r, PatchErrorKind::Invalid)
                    &&& fp is Ok && bits_ok(fp->Ok_0) ==> {
                        &&& dp is Err ==> failed_reading(r, dp->Err_0)
                        &&& dp is Ok && !dim_ok(dp->Ok_0) ==> failed_with(r, PatchErrorKind::Invalid)
                        &&& dp is Ok && dim_ok(dp->Ok_0) ==> {
                            &&& r is Ok
                            &&& same_but_fields_ext(*old(self), *final(self))
                            &&& final(self).fields is Some
                            &&& fields_of(*final(self)).len() == fs.len() + 1
                            &&& fields_of(*final(self)).drop_last() == fs
                            &&& field_added(fp->Ok_0, dp->Ok_0, fname@, fields_of(*final(self)).last())
                        }
                    }
                }
            }),
    {
        let exists = match &self.fields {
            Some(v) => find_field_named(v, fname),
            None => false,
        };
        if exists {
            return Err(PatchError::AlreadyExists(copy_str(fname)));
        }
        let b = make_field(fadd, Some(rpath))?;
        let mut f = build_field(&b, fname)?;
        let dim = make_dim_element(fadd)?;
        match &dim {
            Some(d) => {
                let ghost before = f;
                if modify_dim(&mut f.dim, d).is_err() {
                    return Err(PatchError::Invalid(copy_str(fname)));
                }
                assert(Field { dim: None, ..f } == before);
            },
            None => {},
        }
        match self.fields.take() {
            Some(mut v) => {
                let ghost before = v@;
                v.push(f);
                assert(v@.drop_last() =~= before);
                self.fields = Some(v);
            },
            None => {
                let mut v: Vec<Field> = Vec::new();
                v.push(f);
                assert(v@.drop_last() =~= Seq::<Field>::empty());
                self.fields = Some(v);
            },
        }
        Ok(())
    }
}

/// `a` and `b` agree on everything but their fields.
pub open spec fn same_but_fields_ext(a: Register, b: Register) -> bool {
    b == Register { fields: b.fields, ..a }
}


/// A character that may start an identifier: `_` or an ASCII letter.
pub open spec fn ident_start(c: char) -> bool {
    c == '_' || ('a' <= c && c <= 'z') || ('A' <= c && c <= 'Z')
}

/// A character that may continue an identifier.
pub open spec fn ident_char(c: char) -> bool {
    ident_start(c) || ('0' <= c && c <= '9')
}

/// Every character of `s` may continue an identifier.
pub open spec fn all_ident(s: Seq<char>) -> bool {
    forall|i: int| 0 <= i < s.len() ==> ident_char(#[trigger] s[i])
}

/// A name that may stand for an element or an array of them: `%s`, possibly
/// followed by an identifier; an identifier, possibly followed by `[%s]`; or
/// an identifier with `%s` somewhere after its first character.
pub open spec fn dimable_name(s: Seq<char>) -> bool {
    let ps = seq!['%', 's'];
    ||| s == ps
    ||| (s.len() > 2 && s.take(2) == ps && ident_start(s[2]) && all_ident(s.skip(3)))
    ||| (s.len() > 0 && ident_start(s[0]) && all_ident(s.skip(1)))
    ||| (s.len() > 4 && ident_start(s[0]) && s.skip(s.len() - 4) == seq!['[', '%', 's', ']'] && all_ident(
        s.subrange(1, s.len() - 4),
    ))
    ||| (exists|k: int|
        1 <= k && k + 2 <= s.len() && ident_start(s[0]) && #[trigger] s.subrange(k, k + 2) == ps
            && all_ident(s.subrange(1, k)) && all_ident(s.skip(k + 2)))
}

fn is_ident_start(c: char) -> (r: bool)
    ensures
        r == ident_start(c),
{
    c == '_' || ('a' <= c && c <= 'z') || ('A' <= c && c <= 'Z')
}

fn is_ident_char(c: char) -> (r: bool)
    ensures
        r == ident_char(c),
{
    is_ident_start(c) || ('0' <= c && c <= '9')
}

/// The first position from `lo` on (before `hi`) whose character cannot
/// continue an identifier; `hi` when there is none.
fn ident_run(cs: &Vec<char>, lo: usize, hi: usize) -> (r: usize)
    requires
        lo <= hi <= cs@.len(),
    ensures
        lo <= r <= hi,
        all_ident(cs@.subrange(lo as int, r as int)),
        r < hi ==> !ident_char(cs@[r as int]),
{
    let mut i = lo;
    while i < hi && is_ident_char(cs[i])
        invariant
            lo <= i <= hi,
            hi <= cs@.len(),
            all_ident(cs@.subrange(lo as int, i as int)),
        decreases hi - i,
    {
        assert(cs@.subrange(lo as int, i + 1) =~= cs@.subrange(lo as int, i as int).push(cs@[i as int]));
        i = i + 1;
    }
    i
}

/// Checks that `name` may name an element or an array of them (see
/// [`dimable_name`]).
pub fn check_dimable_name(name: &str) -> (r: Result<(), PatchError>)
    ensures
        r is Ok <==> dimable_name(name@),
        r is Err ==> failed_with(r, PatchErrorKind::Invalid),
{
    let cs = chars_of(name);
    let n = cs.len();
    let ghost s = cs@;
    let ghost ps = seq!['%', 's'];
    // `%s` at the start.
    let mut pct_start = false;
    if n >= 2 && cs[0] == '%' && cs[1] == 's' {
        assert(s.take(2) =~= ps);
        if n == 2 {
            assert(s =~= ps);
            return Ok(());
        }
        if is_ident_start(cs[2]) {
            let e = ident_run(&cs, 3, n);
            if e == n {
                assert(s.skip(3) =~= s.subrange(3, n as int));
                return Ok(());
            }
            assert(s.skip(3)[e - 3] == s[e as int]);
        }
    } else {
        proof {
            if s.len() > 2 && s.take(2) == ps {
                assert(s.take(2)[0] == s[0]);
                assert(s.take(2)[1] == s[1]);
            }
        }
    }
    assert(!(s.len() > 2 && s.take(2) == ps && ident_start(s[2]) && all_ident(s.skip(3))));
    if n == 0 || !is_ident_start(cs[0]) {
        proof {
            lemma_not_dimable_start(s);
        }
        return Err(PatchError::Invalid(copy_str(name)));
    }
    let e = ident_run(&cs, 1, n);
    if e == n {
        assert(s.skip(1) =~= s.subrange(1, n as int));
        return Ok(());
    }
    // `e` is the first character that does not continue the identifier.
    if n >= 5 && e == n - 4 && cs[e] == '[' && cs[e + 1] == '%' && cs[e + 2] == 's' && cs[e + 3] == ']' {
        assert(s.skip(s.len() - 4) =~= seq!['[', '%', 's', ']']);
        return Ok(());
    }
    if n - e >= 2 && cs[e] == '%' && cs[e + 1] == 's' {
        let e2 = ident_run(&cs, e + 2, n);
        if e2 == n {
            assert(s.subrange(e as int, e + 2) =~= ps);
            assert(s.skip(e + 2) =~= s.subrange(e + 2, n as int));
            return Ok(());
        }
        proof {
            lemma_not_dimable_mid(s, e as int, e2 as int);
        }
        return Err(PatchError::Invalid(copy_str(name)));
    }
    proof {
        lemma_not_dimable_plain(s, e as int);
    }
    Err(PatchError::Invalid(copy_str(name)))
}

proof fn lemma_not_dimable_start(s: Seq<char>)
    requires
        s.len() == 0 || !ident_start(s[0]),
        !(s == seq!['%', 's']),
        !(s.len() > 2 && s.take(2) == seq!['%', 's'] && ident_start(s[2]) && all_ident(s.skip(3))),
    ensures
        !dimable_name(s),
{
}

proof fn lemma_not_dimable_mid(s: Seq<char>, e: int, e2: int)
    requires
        1 <= e,
        e + 2 <= e2 < s.len(),
        ident_start(s[0]),
        all_ident(s.subrange(1, e)),
        !ident_char(s[e]),
        s[e] == '%' && s[e + 1] == 's',
        !ident_char(s[e2]),
        !(s.len() > 2 && s.take(2) == seq!['%', 's'] && ident_start(s[2]) && all_ident(s.skip(3))),
    ensures
        !dimable_name(s),
{
    assert(!all_ident(s.skip(1))) by {
        assert(s.skip(1)[e - 1] == s[e]);
    }
    assert(!(s.len() > 4 && s.skip(s.len() - 4) == seq!['[', '%', 's', ']'] && all_ident(s.subrange(1, s.len() - 4)))) by {
        if s.len() > 4 && s.skip(s.len() - 4) == seq!['[', '%', 's', ']'] && all_ident(s.subrange(1, s.len() - 4)) {
            assert(s.skip(s.len() - 4)[0] == s[s.len() - 4]);
            if e < s.len() - 4 {
                assert(s.subrange(1, s.len() - 4)[e - 1] == s[e]);
            } else if e > s.len() - 4 {
                assert(s.subrange(1, e)[s.len() - 5] == s[s.len() - 4]);
            }
        }
    }
    assert forall|k: int|
        1 <= k && k + 2 <= s.len() && ident_start(s[0]) && #[trigger] s.subrange(k, k + 2) == seq!['%', 's']
            implies !(all_ident(s.subrange(1, k)) && all_ident(s.skip(k + 2))) by {
        if all_ident(s.subrange(1, k)) && all_ident(s.skip(k + 2)) {
            if k > e {
                assert(s.subrange(1, k)[e - 1] == s[e]);
            } else if k < e {
                assert(s.subrange(1, k + 2)[k - 1] == s[k]);
                assert(s.subrange(k, k + 2)[0] == s[k]);
                assert(s.subrange(1, e)[k - 1] == s[k]);
            } else {
                assert(s.skip(k + 2)[e2 - k - 2] == s[e2]);
            }
        }
    }
}

proof fn lemma_not_dimable_plain(s: Seq<char>, e: int)
    requires
        1 <= e < s.len(),
        ident_start(s[0]),
        all_ident(s.subrange(1, e)),
        !ident_char(s[e]),
        !(s.len() >= 5 && e == s.len() - 4 && s[e] == '[' && s[e + 1] == '%' && s[e + 2] == 's' && s[e + 3] == ']'),
        !(e + 2 <= s.len() && s[e] == '%' && s[e + 1] == 's'),
        !(s.len() > 2 && s.take(2) == seq!['%', 's'] && ident_start(s[2]) && all_ident(s.skip(3))),
    ensures
        !dimable_name(s),
{
    assert(!all_ident(s.skip(1))) by {
        assert(s.skip(1)[e - 1] == s[e]);
    }
    assert(!(s.len() > 4 && s.skip(s.len() - 4) == seq!['[', '%', 's', ']'] && all_ident(s.subrange(1, s.len() - 4)))) by {
        if s.len() > 4 && s.skip(s.len() - 4) == seq!['[', '%', 's', ']'] && all_ident(s.subrange(1, s.len() - 4)) {
            assert(s.skip(s.len() - 4)[0] == s[s.len() - 4]);
            if e < s.len() - 4 {
                assert(s.subrange(1, s.len() - 4)[e - 1] == s[e]);
            } else if e == s.len() - 4 {
                assert(s.skip(s.len() - 4)[1] == s[e + 1]);
                assert(s.skip(s.len() - 4)[2] == s[e + 2]);
                assert(s.skip(s.len() - 4)[3] == s[e + 3]);
            } else {
                assert(s.subrange(1, e)[s.len() - 5] == s[s.len() - 4]);
            }
        }
    }
    assert forall|k: int|
        1 <= k && k + 2 <= s.len() && ident_start(s[0]) && #[trigger] s.subrange(k, k + 2) == seq!['%', 's']
            implies !(all_ident(s.subrange(1, k)) && all_ident(s.skip(k + 2))) by {
        if all_ident(s.subrange(1, k)) && all_ident(s.skip(k + 2)) {
            if k > e {
                assert(s.subrange(1, k)[e - 1] == s[e]);
            } else if k < e {
                assert(s.subrange(k, k + 2)[0] == s[k]);
                assert(s.subrange(1, e)[k - 1] == s[k]);
            } else {
                assert(s.subrange(k, k + 2)[0] == s[k]);
                assert(s.subrange(k, k + 2)[1] == s[k + 1]);
            }
        }
    }
}


/// The pieces of `s` between dots.
pub open spec fn dot_parts(s: Seq<char>) -> Seq<Seq<char>>
    decreases s.len(),
{
    if s.len() == 0 {
        seq![Seq::empty()]
    } else {
        let rest = dot_parts(s.drop_last());
        if s.last() == '.' {
            rest.push(Seq::empty())
        } else {
            rest.update(rest.len() - 1, rest.last().push(s.last()))
        }
    }
}

/// The full path of the field that `d` names from the register at `p`:
/// `cluster.register.field` is read next to the register's cluster (when the
/// register is in one), `register.field` inside the register's block, and
/// anything else is taken as it is.
pub open spec fn field_path_text(d: Seq<char>, p: RegisterPath) -> Seq<char> {
    let parts = dot_parts(d);
    let path = texts_of(p.block.path@);
    if parts.len() == 3 && path.len() > 0 {
        block_text(p.block.peripheral@, path.drop_last()) + seq!['.'] + parts[0] + seq!['.'] + parts[1]
            + seq!['.'] + parts[2]
    } else if parts.len() == 2 {
        p.block.text() + seq!['.'] + parts[0] + seq!['.'] + parts[1]
    } else {
        d
    }
}

proof fn lemma_dot_parts_len(s: Seq<char>)
    ensures
        dot_parts(s).len() >= 1,
    decreases s.len(),
{
    if s.len() > 0 {
        lemma_dot_parts_len(s.drop_last());
    }
}

/// The pieces of `s` between dots.
fn split_dots(s: &str) -> (r: Vec<String>)
    ensures
        texts_of(r@) == dot_parts(s@),
{
    let cs = chars_of(s);
    let mut parts: Vec<String> = Vec::new();
    parts.push(String::new());
    let mut i: usize = 0;
    assert(texts_of(parts@) =~= dot_parts(cs@.take(0)));
    while i < cs.len()
        invariant
            i <= cs@.len(),
            cs@ == s@,
            texts_of(parts@) == dot_parts(cs@.take(i as int)),
            parts@.len() >= 1,
        decreases cs.len() - i,
    {
        proof {
            assert(cs@.take(i + 1).drop_last() =~= cs@.take(i as int));
            lemma_dot_parts_len(cs@.take(i as int));
        }
        if cs[i] == '.' {
            let ghost before = parts@;
            parts.push(String::new());
            assert(texts_of(parts@) =~= texts_of(before).push(Seq::empty()));
        } else {
            let k = parts.len() - 1;
            let mut last = parts.remove(k);
            let ghost before = parts@;
            push_char(&mut last, cs[i]);
            parts.push(last);
            assert(texts_of(parts@) =~= dot_parts(cs@.take(i as int)).update(k as int, dot_parts(cs@.take(i as int)).last().push(cs@[i as int])));
        }
        i = i + 1;
    }
    assert(cs@.take(i as int) =~= s@);
    parts
}

/// The full path of the field that `d` names (see [`field_path_text`]).
fn field_path(d: &str, p: &RegisterPath) -> (r: String)
    ensures
        r@ == field_path_text(d@, *p),
{
    let parts = split_dots(d);
    let np = p.block.path.len();
    if parts.len() == 3 && np > 0 {
        let mut out = copy_str(p.block.peripheral.as_str());
        let mut i: usize = 0;
        while i < np - 1
            invariant
                np == p.block.path@.len(),
                np > 0,
                i <= np - 1,
                out@ == block_text(p.block.peripheral@, texts_of(p.block.path@).take(i as int)),
            decreases np - 1 - i,
        {
            push_char(&mut out, '.');
            out.append(p.block.path[i].as_str());
            proof {
                assert(texts_of(p.block.path@).take(i + 1).drop_last() =~= texts_of(p.block.path@).take(i as int));
            }
            i = i + 1;
        }
        assert(texts_of(p.block.path@).take(i as int) =~= texts_of(p.block.path@).drop_last());
        push_char(&mut out, '.');
        out.append(parts[0].as_str());
        push_char(&mut out, '.');
        out.append(parts[1].as_str());
        push_char(&mut out, '.');
        out.append(parts[2].as_str());
        proof {
            assert(texts_of(parts@)[0] == parts@[0]@);
            assert(texts_of(parts@)[1] == parts@[1]@);
            assert(texts_of(parts@)[2] == parts@[2]@);
        }
        out
    } else if parts.len() == 2 {
        let mut out = p.block.to_text();
        push_char(&mut out, '.');
        out.append(parts[0].as_str());
        push_char(&mut out, '.');
        out.append(parts[1].as_str());
        proof {
            assert(texts_of(parts@)[0] == parts@[0]@);
            assert(texts_of(parts@)[1] == parts@[1]@);
        }
        out
    } else {
        copy_str(d)
    }
}

/// A patch that only makes a field derive from `path`.
fn derive_only(path: String) -> (r: FieldPatch)
    ensures
        r@.derived_from == Some(path@),
        r@.name is None && r@.description is None && r@.access is None,
        r@.modified_write_values is None && r@.read_action is None && r@.write_constraint is None,
        r@.bits == Bits::Unset,
{
    FieldPatch {
        name: None,
        description: None,
        derived_from: Some(path),
        access: None,
        modified_write_values: None,
        read_action: None,
        write_constraint: None,
        bits: Bits::Unset,
    }
}

impl Register {
    /// Clear field from rname and mark it as derivedFrom rderive.
    pub fn derive_field(&mut self, fspec: &str, fderive: &crate::patch::yaml::Yaml, rpath: &RegisterPath) -> (r: Result<(), PatchError>)
        ensures
            ({
                let s = spec_parts(fspec@).0;
                let fs = fields_of(*old(self));
                &&& !names_compile(fs, s) ==> failed_with(r, PatchErrorKind::InvalidSpec)
                &&& r is Ok ==> same_but_fields_ext(*old(self), *final(self))
                &&& r is Ok && (exists|i: int| 0 <= i < fs.len() && selects(s, #[trigger] fs[i])) ==> {
                    &&& fields_of(*final(self)).len() == fs.len()
                    &&& forall|i: int| 0 <= i < fs.len() ==> if selects(s, #[trigger] fs[i]) {
                        fields_of(*final(self))[i].derived_from is Some
                    } else {
                        fields_of(*final(self))[i] == fs[i]
                    }
                }
            }),
    {
        let (fspec, ignore) = fspec.spec();
        let flags = match &self.fields {
            Some(v) => match match_flags(v, fspec) {
                None => {
                    return Err(PatchError::InvalidSpec(copy_str(fspec)));
                },
                Some(f) => f,
            },
            None => Vec::new(),
        };
        let ghost fs = fields_of(*self);
        let (dim, info): (Option<DimPatch>, FieldPatch) = match fderive {
            crate::patch::yaml::Yaml::String(d) => (None, derive_only(field_path(d.as_str(), rpath))),
            crate::patch::yaml::Yaml::Hash(h) => {
                let d = match h.get_str("_from") {
                    Ok(Some(d)) => d,
                    Ok(None) => {
                        return Err(PatchError::Invalid(copy_str(fspec)));
                    },
                    Err(e) => {
                        return Err(PatchError::Yaml(e));
                    },
                };
                let dim = make_dim_element(h)?;
                let mut info = make_field(h, Some(rpath))?;
                info.derived_from = Some(field_path(d, rpath));
                (dim, info)
            },
            _ => {
                return Err(PatchError::Invalid(copy_str(fspec)));
            },
        };
        match first_flag(&flags) {
            Some(j) => {
                let mut v = match self.fields.take() {
                    Some(v) => v,
                    None => Vec::new(),
                };
                let res = apply_modify(&mut v, &flags, &info, &dim, None, false, Ghost(fspec@));
                self.fields = Some(v);
                if res.is_err() {
                    return Err(PatchError::Invalid(copy_str(fspec)));
                }
                proof {
                    assert forall|i: int| 0 <= i < fs.len() && selects(fspec@, #[trigger] fs[i]) implies fields_of(*self)[i].derived_from is Some by {
                        assert(flags@[i]);
                        let a = fs[i];
                        let out = fields_of(*self)[i];
                        let (m, o) = choose|m: Field, o: Field| {
                            &&& match dim_view(dim) {
                                Some(d) => dim_patched(a.dim, d, m.dim) && m == Field { dim: m.dim, ..a },
                                None => m == a,
                            }
                            &&& field_patched(Field { write_constraint: m.write_constraint, ..m }, info@, o)
                            &&& out == o
                        };
                    }
                }
                Ok(())
            },
            None => {
                proof {
                    assert forall|i: int| 0 <= i < fs.len() implies !selects(fspec@, #[trigger] fs[i]) by {
                        assert(!flags@[i]);
                    }
                }
                if ignore {
                    return Ok(());
                }
                check_dimable_name(fspec)?;
                let mut f = build_field(&info, fspec)?;
                match &dim {
                    Some(d) => {
                        if modify_dim(&mut f.dim, d).is_err() {
                            return Err(PatchError::Invalid(copy_str(fspec)));
                        }
                    },
                    None => {},
                }
                match self.fields.take() {
                    Some(mut v) => {
                        v.push(f);
                        self.fields = Some(v);
                    },
                    None => {
                        self.fields = Some(vec![f]);
                    },
                }
                Ok(())
            },
        }
    }
}

} // verus!
