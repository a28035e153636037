//! The patch rules that work on the fields of one register.
use vstd::prelude::*;
use crate::model::{Field, Register, ReadAction, ModifiedWriteValues, WriteConstraint, BitRangeType};
use crate::patch::error::{PatchError, PatchErrorKind, failed_with, failed_on_yaml};
use crate::patch::names::{
    try_matchname, name_matches, spec_compiles_for, plain_glob_ok, plain_glob_match,
    plain_glob_compiles, plain_glob_is_match,
};
use crate::patch::yaml::{Yaml, YamlV, YamlHash, yv, yv_seq, group_yaml_views};
use crate::patch::yaml_ext::{parse_i64_spec, YamlError, YamlErrorV, entry, str_of, yaml_clone};
use crate::common::str_utils::join;
use crate::patch::{Spec, spec_parts};
use crate::text::{copy_str, push_char, copy_opt, opt_view, decimal, push_decimal, replace_all, replace_str, str_eq};

verus! {

/// The fields of a register (none when it has no field list).
pub open spec fn fields_of(r: Register) -> Seq<Field> {
    match r.fields {
        Some(v) => v@,
        None => Seq::empty(),
    }
}

/// Whether every glob needed to match the names of `fs` against `spec`
/// compiles.
pub open spec fn names_compile(fs: Seq<Field>, spec: Seq<char>) -> bool {
    forall|i: int| 0 <= i < fs.len() ==> spec_compiles_for(#[trigger] fs[i].name@, spec)
}

/// Whether field `f` is selected by `spec`.
pub open spec fn selects(spec: Seq<char>, f: Field) -> bool {
    name_matches(f.name@, spec)
}

/// `a` and `b` agree on everything but their fields.
pub open spec fn same_but_fields(a: Register, b: Register) -> bool {
    a == Register { fields: a.fields, ..b }
}

/// `b` is `a` with its field list replaced, present exactly when it was.
pub open spec fn fields_replaced(a: Register, b: Register) -> bool {
    same_but_fields(a, b) && (a.fields is Some <==> b.fields is Some)
}

/// Which fields of `fs` `spec` selects; `None` when one of the globs does not
/// compile.
pub fn match_flags(fs: &Vec<Field>, spec: &str) -> (r: Option<Vec<bool>>)
    ensures
        r is None <==> !names_compile(fs@, spec@),
        r matches Some(v) ==> v@.len() == fs@.len() && forall|i: int|
            0 <= i < fs@.len() ==> v@[i] == selects(spec@, #[trigger] fs@[i]),
{
    let mut out: Vec<bool> = Vec::new();
    let mut i: usize = 0;
    while i < fs.len()
        invariant
            i <= fs@.len(),
            out@.len() == i,
            forall|j: int| 0 <= j < i ==> spec_compiles_for(#[trigger] fs@[j].name@, spec@),
            forall|j: int| 0 <= j < i ==> out@[j] == selects(spec@, #[trigger] fs@[j]),
        decreases fs.len() - i,
    {
        match try_matchname(fs[i].name.as_str(), spec) {
            None => {
                return None;
            },
            Some(b) => {
                out.push(b);
            },
        }
        i = i + 1;
    }
    Some(out)
}

impl Register {
    /// Delete fields matched by fspec inside rtag
    pub fn delete_field(&mut self, fspec: &str) -> (r: Result<(), PatchError>)
        ensures
            r is Err <==> !names_compile(fields_of(*old(self)), fspec@),
            r matches Err(e) ==> e is InvalidSpec && *final(self) == *old(self),
            r is Ok ==> fields_replaced(*old(self), *final(self)) && fields_of(*final(self))
                == fields_of(*old(self)).filter(|f: Field| !selects(fspec@, f)),
    {
        let flags = match &self.fields {
            None => {
                return Ok(());
            },
            Some(v) => match_flags(v, fspec),
        };
        let flags = match flags {
            None => {
                return Err(PatchError::InvalidSpec(copy_str(fspec)));
            },
            Some(f) => f,
        };
        let mut v = match self.fields.take() {
            Some(v) => v,
            None => Vec::new(),
        };
        let ghost orig = v@;
        let ghost pred = |f: Field| !selects(fspec@, f);
        let mut kept: Vec<Field> = Vec::new();
        let mut i: usize = 0;
        while i < flags.len()
            invariant
                flags@.len() == orig.len(),
                forall|j: int| 0 <= j < orig.len() ==> flags@[j] == selects(fspec@, #[trigger] orig[j]),
                i <= orig.len(),
                v@ == orig.skip(i as int),
                pred == (|f: Field| !selects(fspec@, f)),
                kept@ == orig.take(i as int).filter(pred),
            decreases flags.len() - i,
        {
            assert(v@[0] == orig[i as int]);
            let f = v.remove(0);
            proof {
                orig.take(i as int).lemma_filter_push(orig[i as int], pred);
                assert(orig.take(i + 1) =~= orig.take(i as int).push(orig[i as int]));
                assert(flags@[i as int] == selects(fspec@, orig[i as int]));
                assert(pred(orig[i as int]) == !flags@[i as int]);
            }
            if !flags[i] {
                kept.push(f);
            }
            i = i + 1;
            assert(v@ =~= orig.skip(i as int));
        }
        assert(orig.take(i as int) =~= orig);
        self.fields = Some(kept);
        Ok(())
    }

    /// Clear contents of fields matched by fspec inside rtag
    pub fn clear_field(&mut self, fspec: &str) -> (r: Result<(), PatchError>)
        ensures
            r is Err <==> !names_compile(fields_of(*old(self)), fspec@),
            r matches Err(e) ==> e is InvalidSpec && *final(self) == *old(self),
            r is Ok ==> fields_replaced(*old(self), *final(self)) && fields_of(*final(self)).len()
                == fields_of(*old(self)).len() && forall|i: int|
                0 <= i < fields_of(*old(self)).len() ==> cleared(
                    fspec@,
                    #[trigger] fields_of(*old(self))[i],
                    fields_of(*final(self))[i],
                ),
    {
        let flags = match &self.fields {
            None => {
                return Ok(());
            },
            Some(v) => match_flags(v, fspec),
        };
        let flags = match flags {
            None => {
                return Err(PatchError::InvalidSpec(copy_str(fspec)));
            },
            Some(f) => f,
        };
        let mut v = match self.fields.take() {
            Some(v) => v,
            None => Vec::new(),
        };
        let ghost orig = v@;
        let mut out: Vec<Field> = Vec::new();
        let mut i: usize = 0;
        while i < flags.len()
            invariant
                flags@.len() == orig.len(),
                forall|j: int| 0 <= j < orig.len() ==> flags@[j] == selects(fspec@, #[trigger] orig[j]),
                i <= orig.len(),
                v@ == orig.skip(i as int),
                out@.len() == i,
                forall|j: int| 0 <= j < i ==> cleared(fspec@, #[trigger] orig[j], out@[j]),
            decreases flags.len() - i,
        {
            let mut f = v.remove(0);
            if flags[i] && f.derived_from.is_none() {
                f.enumerated_values = Vec::new();
                f.write_constraint = None;
            }
            out.push(f);
            i = i + 1;
            assert(v@ =~= orig.skip(i as int));
        }
        self.fields = Some(out);
        Ok(())
    }

    /// Add prefix at the beginning of bitfield names inside rtag
    pub fn add_prefix(&mut self, prefix: &str)
        ensures
            fields_replaced(*old(self), *final(self)),
            fields_of(*final(self)).len() == fields_of(*old(self)).len(),
            forall|i: int|
                0 <= i < fields_of(*old(self)).len() ==> renamed(
                    #[trigger] fields_of(*old(self))[i],
                    fields_of(*final(self))[i],
                    prefix@ + fields_of(*old(self))[i].name@,
                ),
    {
        let mut v = match self.fields.take() {
            Some(v) => v,
            None => {
                return ;
            },
        };
        let ghost orig = v@;
        let n = v.len();
        let mut out: Vec<Field> = Vec::new();
        let mut i: usize = 0;
        while i < n
            invariant
                n == orig.len(),
                i <= n,
                v@ == orig.skip(i as int),
                out@.len() == i,
                forall|j: int|
                    0 <= j < i ==> renamed(#[trigger] orig[j], out@[j], prefix@ + orig[j].name@),
            decreases n - i,
        {
            let mut f = v.remove(0);
            let mut name = copy_str(prefix);
            name.append(f.name.as_str());
            f.name = name;
            out.push(f);
            i = i + 1;
            assert(v@ =~= orig.skip(i as int));
        }
        self.fields = Some(out);
    }

    /// Add suffix at the ending of bitfield names inside rtag
    pub fn add_suffix(&mut self, suffix: &str)
        ensures
            fields_replaced(*old(self), *final(self)),
            fields_of(*final(self)).len() == fields_of(*old(self)).len(),
            forall|i: int|
                0 <= i < fields_of(*old(self)).len() ==> renamed(
                    #[trigger] fields_of(*old(self))[i],
                    fields_of(*final(self))[i],
                    fields_of(*old(self))[i].name@ + suffix@,
                ),
    {
        let mut v = match self.fields.take() {
            Some(v) => v,
            None => {
                return ;
            },
        };
        let ghost orig = v@;
        let n = v.len();
        let mut out: Vec<Field> = Vec::new();
        let mut i: usize = 0;
        while i < n
            invariant
                n == orig.len(),
                i <= n,
                v@ == orig.skip(i as int),
                out@.len() == i,
                forall|j: int|
                    0 <= j < i ==> renamed(#[trigger] orig[j], out@[j], orig[j].name@ + suffix@),
            decreases n - i,
        {
            let mut f = v.remove(0);
            f.name.append(suffix);
            out.push(f);
            i = i + 1;
            assert(v@ =~= orig.skip(i as int));
        }
        self.fields = Some(out);
    }
}

/// `b` is `a` after clearing, when `spec` selects `a` and `a` is not derived:
/// no enumerated values and no write constraint; otherwise `a` itself.
pub open spec fn cleared(spec: Seq<char>, a: Field, b: Field) -> bool {
    if selects(spec, a) && a.derived_from is None {
        b == Field { enumerated_values: b.enumerated_values, write_constraint: None, ..a }
            && b.enumerated_values@.len() == 0
    } else {
        b == a
    }
}

/// `b` is `a` named `name`.
pub open spec fn renamed(a: Field, b: Field, name: Seq<char>) -> bool {
    b == Field { name: b.name, ..a } && b.name@ == name
}


/// The name of `a` once a matching `prefix` is stripped: the first
/// `prefix.len()` characters go when the glob `prefix*` matches the name and
/// the name is that long.
pub open spec fn stripped_start(prefix: Seq<char>, name: Seq<char>) -> Seq<char> {
    if plain_glob_match(prefix + seq!['*'], name) && name.len() >= prefix.len() {
        name.skip(prefix.len() as int)
    } else {
        name
    }
}

/// The name once a matching `suffix` is stripped from its end (glob
/// `*suffix`).
pub open spec fn stripped_end(suffix: Seq<char>, name: Seq<char>) -> Seq<char> {
    if plain_glob_match(seq!['*'] + suffix, name) && name.len() >= suffix.len() {
        name.take(name.len() - suffix.len())
    } else {
        name
    }
}

/// `b` is `a` with `read_action` set when `spec` selects `a`.
pub open spec fn read_action_set(spec: Seq<char>, action: ReadAction, a: Field, b: Field) -> bool {
    if selects(spec, a) {
        b == Field { read_action: Some(action), ..a }
    } else {
        b == a
    }
}

/// What `modifiedWriteValues` becomes for `mwv`: `modify` is the default and
/// is left out.
pub open spec fn mwv_value(mwv: ModifiedWriteValues) -> Option<ModifiedWriteValues> {
    if mwv == ModifiedWriteValues::Modify {
        None
    } else {
        Some(mwv)
    }
}

/// `b` is `a` with `modified_write_values` set when `spec` selects `a`.
pub open spec fn mwv_set(spec: Seq<char>, mwv: ModifiedWriteValues, a: Field, b: Field) -> bool {
    if selects(spec, a) {
        b == Field { modified_write_values: mwv_value(mwv), ..a }
    } else {
        b == a
    }
}

/// `b` is `a` with the write constraint `wc` when `spec` selects `a`.
pub open spec fn constraint_set(spec: Seq<char>, wc: WriteConstraint, a: Field, b: Field) -> bool {
    if selects(spec, a) {
        b == Field { write_constraint: Some(wc), ..a }
    } else {
        b == a
    }
}

/// Whether `spec` selects some field of `fs`.
pub open spec fn any_selected(fs: Seq<Field>, spec: Seq<char>) -> bool {
    exists|i: int| 0 <= i < fs.len() && selects(spec, #[trigger] fs[i])
}

/// The names of `fs`.
pub open spec fn field_names(fs: Seq<Field>) -> Seq<Seq<char>> {
    fs.map_values(|f: Field| f.name@)
}

/// What a list rule `[min, max]` does to the fields of `old_r` that
/// `fspec` selects: their write constraint becomes that range; `new_r` is
/// the register afterwards and `r` the outcome.
pub open spec fn range_done(old_r: Register, new_r: Register, fspec: Seq<char>, items: Seq<Yaml>, r: Result<(), PatchError>) -> bool {
    let s = spec_parts(fspec).0;
    let ignore = spec_parts(fspec).1;
    let fs = fields_of(old_r);
    let lo = parse_i64_spec(yv(items[0]));
    let hi = parse_i64_spec(yv(items[1]));
    &&& r is Err ==> new_r == old_r
    &&& !names_compile(fs, s) ==> failed_with(r, PatchErrorKind::InvalidSpec)
    &&& names_compile(fs, s) && !any_selected(fs, s) ==> (r is Ok <==> ignore) && (
    r is Err ==> failed_with(r, PatchErrorKind::NotFound))
    &&& names_compile(fs, s) && any_selected(fs, s) && lo is None ==> failed_on_yaml(
        r,
        YamlErrorV::NotInt(yv(items[0])),
    )
    &&& names_compile(fs, s) && any_selected(fs, s) && lo is Some && hi is None
        ==> failed_on_yaml(r, YamlErrorV::NotInt(yv(items[1])))
    &&& names_compile(fs, s) && any_selected(fs, s) && lo is Some && hi is Some ==> {
        &&& r is Ok
        &&& fields_replaced(old_r, new_r)
        &&& fields_of(new_r).len() == fs.len()
        &&& forall|i: int|
            0 <= i < fs.len() ==> constraint_set(
                s,
                WriteConstraint::Range(lo.unwrap() as u64, hi.unwrap() as u64),
                #[trigger] fs[i],
                fields_of(new_r)[i],
            )
    }
    &&& !names_compile(fs, s) || !any_selected(fs, s) ==> new_r == old_r
}

impl Register {
    /// Delete substring from the beginning bitfield names inside rtag
    pub fn strip_start(&mut self, substr: &str) -> (r: Result<(), PatchError>)
        ensures
            r is Err <==> !plain_glob_ok(substr@ + seq!['*']),
            r matches Err(e) ==> e is InvalidSpec && *final(self) == *old(self),
            r is Ok ==> fields_replaced(*old(self), *final(self)) && fields_of(*final(self)).len()
            == fields_of(*old(self)).len() && forall|i: int|
            0 <= i < fields_of(*old(self)).len() ==> renamed(
                #[trigger] fields_of(*old(self))[i],
                fields_of(*final(self))[i],
                stripped_start(substr@, fields_of(*old(self))[i].name@),
            ),
    {
        let mut pat = copy_str(substr);
        push_char(&mut pat, '*');
        assert(pat@ =~= substr@ + seq!['*']);
        if !plain_glob_compiles(pat.as_str()) {
            return Err(PatchError::InvalidSpec(pat));
        }
        let n = substr.unicode_len();
        let mut v = match self.fields.take() {
            Some(v) => v,
            None => {
                return Ok(());
            },
        };
        let ghost orig = v@;
        let len = v.len();
        let mut out: Vec<Field> = Vec::new();
        let mut i: usize = 0;
        while i < len
            invariant
                len == orig.len(),
                i <= len,
                n == substr@.len(),
                pat@ == substr@ + seq!['*'],
                plain_glob_ok(pat@),
                v@ == orig.skip(i as int),
                out@.len() == i,
                forall|j: int|
                0 <= j < i ==> renamed(
                    #[trigger] orig[j],
                    out@[j],
                    stripped_start(substr@, orig[j].name@),
                ),
            decreases len - i,
        {
            let mut f = v.remove(0);
            if plain_glob_is_match(pat.as_str(), f.name.as_str()) {
                let m = f.name.as_str().unicode_len();
                if m >= n {
                    f.name = f.name.as_str().substring_char(n, m).to_string();
                }
            }
            out.push(f);
            i = i + 1;
            assert(v@ =~= orig.skip(i as int));
        }
        self.fields = Some(out);
        Ok(())
    }
    /// Delete substring from the ending bitfield names inside rtag
    pub fn strip_end(&mut self, substr: &str) -> (r: Result<(), PatchError>)
        ensures
            r is Err <==> !plain_glob_ok(seq!['*'] + substr@),
            r matches Err(e) ==> e is InvalidSpec && *final(self) == *old(self),
            r is Ok ==> fields_replaced(*old(self), *final(self)) && fields_of(*final(self)).len()
            == fields_of(*old(self)).len() && forall|i: int|
            0 <= i < fields_of(*old(self)).len() ==> renamed(
                #[trigger] fields_of(*old(self))[i],
                fields_of(*final(self))[i],
                stripped_end(substr@, fields_of(*old(self))[i].name@),
            ),
    {
        let mut pat = String::new();
        push_char(&mut pat, '*');
        pat.append(substr);
        assert(pat@ =~= seq!['*'] + substr@);
        if !plain_glob_compiles(pat.as_str()) {
            return Err(PatchError::InvalidSpec(pat));
        }
        let n = substr.unicode_len();
        let mut v = match self.fields.take() {
            Some(v) => v,
            None => {
                return Ok(());
            },
        };
        let ghost orig = v@;
        let len = v.len();
        let mut out: Vec<Field> = Vec::new();
        let mut i: usize = 0;
        while i < len
            invariant
                len == orig.len(),
                i <= len,
                n == substr@.len(),
                pat@ == seq!['*'] + substr@,
                plain_glob_ok(pat@),
                v@ == orig.skip(i as int),
                out@.len() == i,
                forall|j: int|
                0 <= j < i ==> renamed(
                    #[trigger] orig[j],
                    out@[j],
                    stripped_end(substr@, orig[j].name@),
                ),
            decreases len - i,
        {
            let mut f = v.remove(0);
            if plain_glob_is_match(pat.as_str(), f.name.as_str()) {
                let m = f.name.as_str().unicode_len();
                if m >= n {
                    f.name = f.name.as_str().substring_char(0, m - n).to_string();
                }
            }
            out.push(f);
            i = i + 1;
            assert(v@ =~= orig.skip(i as int));
        }
        self.fields = Some(out);
        Ok(())
    }
    /// Returns string of present fields
    pub fn present_fields(&self) -> (r: String)
        ensures
            r@ == join(field_names(fields_of(*self)), seq![',', ' ']),
    {
        let mut out = String::new();
        let ghost fs = fields_of(*self);
        match &self.fields {
            None => {
                assert(field_names(fs) =~= Seq::<Seq<char>>::empty());
            },
            Some(v) => {
                let mut i: usize = 0;
                while i < v.len()
                    invariant
                        fs == v@,
                        i <= v@.len(),
                        out@ == join(field_names(fs).take(i as int), seq![',', ' ']),
                    decreases v.len() - i,
                {
                    let ghost before = out@;
                    if i > 0 {
                        push_char(&mut out, ',');
                        push_char(&mut out, ' ');
                    }
                    out.append(v[i].name.as_str());
                    proof {
                        let ns = field_names(fs).take(i + 1);
                        assert(ns.drop_last() =~= field_names(fs).take(i as int));
                        assert(ns.last() == v@[i as int].name@);
                        if i > 0 {
                            assert(out@ =~= before + seq![',', ' '] + v@[i as int].name@);
                        } else {
                            assert(out@ =~= v@[i as int].name@);
                        }
                    }
                    i = i + 1;
                }
                assert(field_names(fs).take(i as int) =~= field_names(fs));
            },
        }
        out
    }
    /// Set readAction for field
    pub fn set_field_read_action(&mut self, fspec: &str, action: ReadAction) -> (r: Result<
        (),
        PatchError,
    >)
        ensures
            r is Err <==> !names_compile(fields_of(*old(self)), spec_parts(fspec@).0),
            r matches Err(e) ==> e is InvalidSpec && *final(self) == *old(self),
            r is Ok ==> fields_replaced(*old(self), *final(self)) && fields_of(*final(self)).len()
            == fields_of(*old(self)).len() && forall|i: int|
            0 <= i < fields_of(*old(self)).len() ==> read_action_set(
                spec_parts(fspec@).0,
                action,
                #[trigger] fields_of(*old(self))[i],
                fields_of(*final(self))[i],
            ),
    {
        let (fspec, _) = fspec.spec();
        let flags = match &self.fields {
            None => {
                return Ok(());
            },
            Some(v) => match_flags(v, fspec),
        };
        let flags = match flags {
            None => {
                return Err(PatchError::InvalidSpec(copy_str(fspec)));
            },
            Some(f) => f,
        };
        let mut v = match self.fields.take() {
            Some(v) => v,
            None => Vec::new(),
        };
        let ghost orig = v@;
        let mut out: Vec<Field> = Vec::new();
        let mut i: usize = 0;
        while i < flags.len()
            invariant
                flags@.len() == orig.len(),
                forall|j: int| 0 <= j < orig.len() ==> flags@[j] == selects(fspec@, #[trigger] orig[j]),
                i <= orig.len(),
                v@ == orig.skip(i as int),
                out@.len() == i,
                forall|j: int|
                0 <= j < i ==> read_action_set(fspec@, action, #[trigger] orig[j], out@[j]),
            decreases flags.len() - i,
        {
            let mut f = v.remove(0);
            if flags[i] {
                f.read_action = Some(action);
            }
            out.push(f);
            i = i + 1;
            assert(v@ =~= orig.skip(i as int));
        }
        self.fields = Some(out);
        Ok(())
    }
    /// Set modifiedWriteValues for field
    pub fn set_field_modified_write_values(&mut self, fspec: &str, mwv: ModifiedWriteValues) -> (r:
        Result<(), PatchError>)
        ensures
            r is Err <==> !names_compile(fields_of(*old(self)), spec_parts(fspec@).0),
            r matches Err(e) ==> e is InvalidSpec && *final(self) == *old(self),
            r is Ok ==> fields_replaced(*old(self), *final(self)) && fields_of(*final(self)).len()
            == fields_of(*old(self)).len() && forall|i: int|
            0 <= i < fields_of(*old(self)).len() ==> mwv_set(
                spec_parts(fspec@).0,
                mwv,
                #[trigger] fields_of(*old(self))[i],
                fields_of(*final(self))[i],
            ),
    {
        let (fspec, _) = fspec.spec();
        let flags = match &self.fields {
            None => {
                return Ok(());
            },
            Some(v) => match_flags(v, fspec),
        };
        let flags = match flags {
            None => {
                return Err(PatchError::InvalidSpec(copy_str(fspec)));
            },
            Some(f) => f,
        };
        let mut v = match self.fields.take() {
            Some(v) => v,
            None => Vec::new(),
        };
        let value = if mwv == ModifiedWriteValues::Modify {
            None
        } else {
            Some(mwv)
        };
        let ghost orig = v@;
        let mut out: Vec<Field> = Vec::new();
        let mut i: usize = 0;
        while i < flags.len()
            invariant
                flags@.len() == orig.len(),
                forall|j: int| 0 <= j < orig.len() ==> flags@[j] == selects(fspec@, #[trigger] orig[j]),
                value == mwv_value(mwv),
                i <= orig.len(),
                v@ == orig.skip(i as int),
                out@.len() == i,
                forall|j: int| 0 <= j < i ==> mwv_set(fspec@, mwv, #[trigger] orig[j], out@[j]),
            decreases flags.len() - i,
        {
            let mut f = v.remove(0);
            if flags[i] {
                f.modified_write_values = value;
            }
            out.push(f);
            i = i + 1;
            assert(v@ =~= orig.skip(i as int));
        }
        self.fields = Some(out);
        Ok(())
    }
    /// Add a writeConstraint range given by field to all fspec in rtag
    pub fn process_field_range(&mut self, fspec: &str, fmod: &[Yaml]) -> (r: Result<
        (),
        PatchError,
    >)
        requires
            fmod@.len() >= 2,
        ensures
            range_done(*old(self), *final(self), fspec@, fmod@, r),
    {
        let (fspec, ignore) = fspec.spec();
        let flags = match &self.fields {
            None => Vec::new(),
            Some(v) => match match_flags(v, fspec) {
                None => {
                    return Err(PatchError::InvalidSpec(copy_str(fspec)));
                },
                Some(f) => f,
            },
        };
        let ghost fs = fields_of(*self);
        let mut any = false;
        let mut k: usize = 0;
        while k < flags.len()
            invariant
                flags@.len() == fs.len(),
                forall|j: int| 0 <= j < fs.len() ==> flags@[j] == selects(fspec@, #[trigger] fs[j]),
                k <= flags.len(),
                any <==> exists|j: int| 0 <= j < k && flags@[j],
            decreases flags.len() - k,
        {
            if flags[k] {
                any = true;
            }
            k = k + 1;
        }
        if !any {
            assert(!any_selected(fs, fspec@)) by {
                if any_selected(fs, fspec@) {
                    let j = choose|j: int| 0 <= j < fs.len() && selects(fspec@, #[trigger] fs[j]);
                    assert(flags@[j]);
                }
            }
            if ignore {
                return Ok(());
            }
            return Err(PatchError::NotFound(copy_str(fspec)));
        }
        assert(any_selected(fs, fspec@)) by {
            let j = choose|j: int| 0 <= j < flags@.len() && flags@[j];
            assert(flags@[j] == selects(fspec@, fs[j]));
        }
        let lo = match fmod[0].i64() {
            Ok(x) => x,
            Err(e) => {
                return Err(PatchError::Yaml(e));
            },
        };
        let hi = match fmod[1].i64() {
            Ok(x) => x,
            Err(e) => {
                return Err(PatchError::Yaml(e));
            },
        };
        let wc = WriteConstraint::Range(#[verifier::truncate] (lo as u64), #[verifier::truncate] (hi as u64));
        let mut v = match self.fields.take() {
            Some(v) => v,
            None => Vec::new(),
        };
        let ghost orig = v@;
        let mut out: Vec<Field> = Vec::new();
        let mut i: usize = 0;
        while i < flags.len()
            invariant
                orig == fs,
                flags@.len() == orig.len(),
                forall|j: int| 0 <= j < orig.len() ==> flags@[j] == selects(fspec@, #[trigger] orig[j]),
                i <= orig.len(),
                v@ == orig.skip(i as int),
                out@.len() == i,
                forall|j: int| 0 <= j < i ==> constraint_set(fspec@, wc, #[trigger] orig[j], out@[j]),
            decreases flags.len() - i,
        {
            let mut f = v.remove(0);
            if flags[i] {
                f.write_constraint = Some(wc);
            }
            out.push(f);
            i = i + 1;
            assert(v@ =~= orig.skip(i as int));
        }
        self.fields = Some(out);
        Ok(())
    }
}


/// The placeholder `%s` of name and description templates.
pub open spec fn pct_s() -> Seq<char> {
    seq!['%', 's']
}

/// The bits of every field lie below 2^32.
pub open spec fn fields_fit(fs: Seq<Field>) -> bool {
    forall|i: int| 0 <= i < fs.len() ==> #[trigger] fs[i].bit_offset + fs[i].bit_width <= 0x1_0000_0000
}

/// `f` is the one-bit field number `i` of a split: named and described by the
/// templates with `%s` replaced by `i`, at bit `offset + i`, nothing else set.
pub open spec fn split_piece(name_t: Seq<char>, desc_t: Option<Seq<char>>, offset: u32, i: int, f: Field) -> bool {
    &&& f.name@ == replace_all(name_t, pct_s(), decimal(i as nat))
    &&& opt_view(f.description) == match desc_t {
        Some(d) => Some(replace_all(d, pct_s(), decimal(i as nat))),
        None => None,
    }
    &&& f.bit_offset == offset + i
    &&& f.bit_width == 1
    &&& plain_field(f)
}

/// `f` carries nothing besides name, description and bits (as a field built
/// from those alone), its bits given as offset and width.
pub open spec fn plain_field(f: Field) -> bool {
    &&& f.range_type == BitRangeType::OffsetWidth
    &&& f.access is None
    &&& f.modified_write_values is None
    &&& f.write_constraint is None
    &&& f.read_action is None
    &&& f.enumerated_values@.len() == 0
    &&& f.derived_from is None
    &&& f.dim is None
}

/// The one field that `spec` selects in `fs`, if exactly one is.
pub open spec fn single_selected(fs: Seq<Field>, spec: Seq<char>) -> Option<Field> {
    let sel = fs.filter(|f: Field| selects(spec, f));
    if sel.len() == 1 {
        Some(sel[0])
    } else {
        None
    }
}

/// A field with the given name, description and bits and nothing else.
fn plain_field_new(name: String, description: Option<String>, offset: u32, width: u32) -> (r: Field)
    ensures
        r.name == name,
        r.description == description,
        r.bit_offset == offset,
        r.bit_width == width,
        plain_field(r),
{
    Field {
        name,
        description,
        bit_offset: offset,
        bit_width: width,
        range_type: BitRangeType::OffsetWidth,
        access: None,
        modified_write_values: None,
        write_constraint: None,
        read_action: None,
        enumerated_values: Vec::new(),
        derived_from: None,
        dim: None,
    }
}

/// `template` with `%s` replaced by the decimal digits of `i`.
fn fill_template(template: &str, i: u32) -> (r: String)
    ensures
        r@ == replace_all(template@, pct_s(), decimal(i as nat)),
{
    let mut digits = String::new();
    push_decimal(&mut digits, i as u64);
    proof {
        reveal_strlit("%s");
        assert("%s"@ =~= pct_s());
    }
    replace_str(template, "%s", digits.as_str())
}

/// The index of the first field that `flags` marks.
pub fn first_flag(flags: &Vec<bool>) -> (r: Option<usize>)
    ensures
        r is None <==> forall|j: int| 0 <= j < flags@.len() ==> !flags@[j],
        r matches Some(i) ==> i < flags@.len() && flags@[i as int] && forall|j: int|
            0 <= j < i ==> !flags@[j],
{
    let mut i: usize = 0;
    while i < flags.len()
        invariant
            i <= flags@.len(),
            forall|j: int| 0 <= j < i ==> !flags@[j],
        decreases flags.len() - i,
    {
        if flags[i] {
            return Some(i);
        }
        i = i + 1;
    }
    None
}

/// How many entries `flags` marks.
pub open spec fn count_flags(flags: Seq<bool>) -> nat
    decreases flags.len(),
{
    if flags.len() == 0 {
        0
    } else {
        count_flags(flags.drop_last()) + if flags.last() { 1nat } else { 0nat }
    }
}

impl Register {
    /// Split all fspec in rtag.
    /// Name and description can be customized with %s as a placeholder to the iterator value
    #[verifier::loop_isolation(false)]
    pub fn split_fields(&mut self, fspec: &str, fsplit: &YamlHash) -> (r: Result<(), PatchError>)
        requires
            fields_fit(fields_of(*old(self))),
        ensures
            ({
                let s = spec_parts(fspec@).0;
                let ignore = spec_parts(fspec@).1;
                let fs = fields_of(*old(self));
                let sel = fs.filter(|f: Field| selects(s, f));
                let name_e = entry(fsplit.view_pairs(), seq!['n', 'a', 'm', 'e']);
                let desc_e = entry(
                    fsplit.view_pairs(),
                    seq!['d', 'e', 's', 'c', 'r', 'i', 'p', 't', 'i', 'o', 'n'],
                );
                &&& r is Err ==> *final(self) == *old(self)
                &&& !names_compile(fs, s) ==> failed_with(r, PatchErrorKind::InvalidSpec)
                &&& names_compile(fs, s) && sel.len() == 0 ==> (r is Ok <==> ignore) && *final(self)
                    == *old(self) && (r is Err ==> failed_with(r, PatchErrorKind::NotFound))
                &&& names_compile(fs, s) && sel.len() > 1 ==> failed_with(r, PatchErrorKind::Invalid)
                &&& names_compile(fs, s) && sel.len() == 1 ==> {
                    let first = sel[0];
                    let name_t = match name_e {
                        Some(v) => str_of(v),
                        None => Some(first.name@ + pct_s()),
                    };
                    let desc_t = match desc_e {
                        Some(v) => match str_of(v) {
                            Some(d) => Some(Some(d)),
                            None => None,
                        },
                        None => Some(opt_view(first.description)),
                    };
                    &&& name_t is None ==> failed_on_yaml(r, YamlErrorV::NotStr(name_e.unwrap()))
                    &&& name_t is Some && desc_t is None ==> failed_on_yaml(
                        r,
                        YamlErrorV::NotStr(desc_e.unwrap()),
                    )
                    &&& name_t is Some && desc_t is Some ==> {
                        let kept = fs.filter(|f: Field| f.name@ != first.name@);
                        let news = fields_of(*final(self));
                        &&& r is Ok
                        &&& fields_replaced(*old(self), *final(self))
                        &&& news.len() == kept.len() + first.bit_width
                        &&& news.take(kept.len() as int) == kept
                        &&& forall|i: int|
                            0 <= i < first.bit_width ==> split_piece(
                                name_t.unwrap(),
                                desc_t.unwrap(),
                                first.bit_offset,
                                i,
                                #[trigger] news[kept.len() + i],
                            )
                    }
                }
            }),
    {
        let (fspec, ignore) = fspec.spec();
        let ghost fs = fields_of(*self);
        let flags = match &self.fields {
            None => Vec::new(),
            Some(v) => match match_flags(v, fspec) {
                None => {
                    return Err(PatchError::InvalidSpec(copy_str(fspec)));
                },
                Some(f) => f,
            },
        };
        let ghost pred = |f: Field| selects(fspec@, f);
        proof {
            lemma_filter_by_flags(fs, flags@, pred);
        }
        let first = match first_flag(&flags) {
            None => {
                proof {
                    lemma_no_flags(flags@);
                }
                if ignore {
                    return Ok(());
                }
                return Err(PatchError::NotFound(copy_str(fspec)));
            },
            Some(i) => i,
        };
        let nf = flags.len();
        assert(first < nf);
        let mut k: usize = first + 1;
        while k < flags.len()
            invariant
                first < k <= flags@.len(),
                flags@[first as int],
                forall|j: int| 0 <= j < first ==> !flags@[j],
                forall|j: int| first < j < k ==> !flags@[j],
            decreases flags.len() - k,
        {
            if flags[k] {
                proof {
                    lemma_two_flags(flags@, first as int, k as int);
                }
                return Err(PatchError::Invalid(copy_str(fspec)));
            }
            k = k + 1;
        }
        proof {
            lemma_one_flag(fs, flags@, pred, first as int);
        }
        let ghost fv = fs[first as int];
        let (fname, fdesc, offset, width) = match &self.fields {
            Some(v) => (v[first].name.clone(), copy_opt(&v[first].description), v[first].bit_offset, v[first].bit_width),
            None => (String::new(), None, 0, 0),
        };
        proof {
            reveal_strlit("name");
            reveal_strlit("description");
            assert("name"@ =~= seq!['n', 'a', 'm', 'e']);
            assert("description"@ =~= seq!['d', 'e', 's', 'c', 'r', 'i', 'p', 't', 'i', 'o', 'n']);
            assert(fields_fit(fs));
            assert(fs[first as int].bit_offset + fs[first as int].bit_width <= 0x1_0000_0000);
        }
        let name_t = match fsplit.get_str("name") {
            Err(e) => {
                return Err(PatchError::Yaml(e));
            },
            Ok(Some(n)) => copy_str(n),
            Ok(None) => {
                let mut n = fname.clone();
                n.append("%s");
                proof {
                    reveal_strlit("%s");
                }
                assert(n@ =~= fv.name@ + pct_s());
                n
            },
        };
        let desc_t = match fsplit.get_str("description") {
            Err(e) => {
                return Err(PatchError::Yaml(e));
            },
            Ok(Some(d)) => Some(copy_str(d)),
            Ok(None) => fdesc,
        };
        let mut pieces: Vec<Field> = Vec::new();
        let mut i: u32 = 0;
        while i < width
            invariant
                offset as int + width as int <= 0x1_0000_0000,
                pieces@.len() == i,
                i <= width,
                forall|j: int|
                    0 <= j < i ==> split_piece(
                        name_t@,
                        opt_view(desc_t),
                        offset,
                        j,
                        #[trigger] pieces@[j],
                    ),
            decreases width - i,
        {
            let pname = fill_template(name_t.as_str(), i);
            let pdesc = match &desc_t {
                Some(d) => Some(fill_template(d.as_str(), i)),
                None => None,
            };
            pieces.push(plain_field_new(pname, pdesc, offset + i, 1));
            i = i + 1;
        }
        let mut v = match self.fields.take() {
            Some(v) => v,
            None => Vec::new(),
        };
        let ghost orig = v@;
        let ghost keep = |f: Field| f.name@ != fv.name@;
        let mut out: Vec<Field> = Vec::new();
        let n = v.len();
        let mut j: usize = 0;
        while j < n
            invariant
                n == orig.len(),
                j <= n,
                v@ == orig.skip(j as int),
                keep == (|f: Field| f.name@ != fv.name@),
                fname@ == fv.name@,
                out@ == orig.take(j as int).filter(keep),
            decreases n - j,
        {
            assert(v@[0] == orig[j as int]);
            let f = v.remove(0);
            proof {
                orig.take(j as int).lemma_filter_push(orig[j as int], keep);
                assert(orig.take(j + 1) =~= orig.take(j as int).push(orig[j as int]));
            }
            if !str_eq(f.name.as_str(), fname.as_str()) {
                out.push(f);
            }
            j = j + 1;
            assert(v@ =~= orig.skip(j as int));
        }
        assert(orig.take(j as int) =~= orig);
        let ghost kept = out@;
        let ghost porig = pieces@;
        let np = pieces.len();
        let mut p: usize = 0;
        while p < np
            invariant
                np == porig.len(),
                p <= np,
                pieces@ == porig.skip(p as int),
                out@ == kept + porig.take(p as int),
            decreases np - p,
        {
            assert(pieces@[0] == porig[p as int]);
            let piece = pieces.remove(0);
            out.push(piece);
            p = p + 1;
            assert(pieces@ =~= porig.skip(p as int));
            assert(out@ =~= kept + porig.take(p as int));
        }
        assert(porig.take(p as int) =~= porig);
        self.fields = Some(out);
        Ok(())
    }
}

/// Filtering by a predicate keeps exactly the entries whose flag is set.
proof fn lemma_filter_by_flags(fs: Seq<Field>, flags: Seq<bool>, pred: spec_fn(Field) -> bool)
    requires
        flags.len() == fs.len(),
        forall|j: int| 0 <= j < fs.len() ==> flags[j] == pred(#[trigger] fs[j]),
    ensures
        fs.filter(pred).len() == count_flags(flags),
    decreases fs.len(),
{
    reveal(Seq::filter);
    if fs.len() > 0 {
        lemma_filter_by_flags(fs.drop_last(), flags.drop_last(), pred);
    }
}

proof fn lemma_no_flags(flags: Seq<bool>)
    requires
        forall|j: int| 0 <= j < flags.len() ==> !flags[j],
    ensures
        count_flags(flags) == 0,
    decreases flags.len(),
{
    if flags.len() > 0 {
        lemma_no_flags(flags.drop_last());
    }
}

proof fn lemma_two_flags(flags: Seq<bool>, a: int, b: int)
    requires
        0 <= a < b < flags.len(),
        flags[a],
        flags[b],
    ensures
        count_flags(flags) >= 2,
    decreases flags.len(),
{
    lemma_count_at_least_one(flags.take(b), a);
    lemma_count_prefix(flags, b + 1);
    assert(flags.take(b + 1).drop_last() =~= flags.take(b));
    lemma_count_le(flags, b + 1);
}

proof fn lemma_count_at_least_one(flags: Seq<bool>, a: int)
    requires
        0 <= a < flags.len(),
        flags[a],
    ensures
        count_flags(flags) >= 1,
    decreases flags.len(),
{
    if a < flags.len() - 1 {
        lemma_count_at_least_one(flags.drop_last(), a);
    }
}

proof fn lemma_count_prefix(flags: Seq<bool>, k: int)
    requires
        0 < k <= flags.len(),
    ensures
        count_flags(flags.take(k)) == count_flags(flags.take(k - 1)) + if flags[k - 1] { 1nat } else { 0nat },
{
    assert(flags.take(k).drop_last() =~= flags.take(k - 1));
}

proof fn lemma_count_le(flags: Seq<bool>, k: int)
    requires
        0 <= k <= flags.len(),
    ensures
        count_flags(flags.take(k)) <= count_flags(flags),
    decreases flags.len() - k,
{
    if k < flags.len() {
        lemma_count_le(flags, k + 1);
        lemma_count_prefix(flags, k + 1);
    } else {
        assert(flags.take(k) =~= flags);
    }
}

proof fn lemma_one_flag(fs: Seq<Field>, flags: Seq<bool>, pred: spec_fn(Field) -> bool, a: int)
    requires
        flags.len() == fs.len(),
        forall|j: int| 0 <= j < fs.len() ==> flags[j] == pred(#[trigger] fs[j]),
        0 <= a < flags.len(),
        flags[a],
        forall|j: int| 0 <= j < flags.len() && j != a ==> !flags[j],
    ensures
        fs.filter(pred) == seq![fs[a]],
    decreases fs.len(),
{
    reveal(Seq::filter);
    if a == fs.len() - 1 {
        assert(fs.drop_last().filter(pred) =~= Seq::<Field>::empty()) by {
            lemma_filter_by_flags(fs.drop_last(), flags.drop_last(), pred);
            lemma_no_flags(flags.drop_last());
        }
        assert(fs.filter(pred) =~= seq![fs[a]]);
    } else {
        lemma_one_flag(fs.drop_last(), flags.drop_last(), pred, a);
    }
}


/// The test of whether `spec` selects a field.
pub open spec fn sel_pred(spec: Seq<char>) -> spec_fn(Field) -> bool {
    |f: Field| selects(spec, f)
}

/// The test of whether a field's name is none of `ns`.
pub open spec fn outside(ns: Seq<Seq<char>>) -> spec_fn(Field) -> bool {
    |f: Field| !ns.contains(f.name@)
}

/// The names of the fields of `fs` that `spec` selects, in order.
pub open spec fn selected_names(fs: Seq<Field>, spec: Seq<char>) -> Seq<Seq<char>> {
    field_names(fs.filter(sel_pred(spec)))
}

/// The longest common prefix of `a` and `b`.
pub open spec fn common_prefix(a: Seq<char>, b: Seq<char>) -> Seq<char>
    decreases a.len(),
{
    if a.len() == 0 || b.len() == 0 || a[0] != b[0] {
        Seq::empty()
    } else {
        seq![a[0]] + common_prefix(a.drop_first(), b.drop_first())
    }
}

/// The longest prefix that all of `ns` share (empty for no names).
pub open spec fn longest_common_prefix_spec(ns: Seq<Seq<char>>) -> Seq<char>
    decreases ns.len(),
{
    if ns.len() == 0 {
        Seq::empty()
    } else if ns.len() == 1 {
        ns[0]
    } else {
        common_prefix(longest_common_prefix_spec(ns.drop_last()), ns.last())
    }
}

/// What the merge rule decides: the new field's name and the names of the
/// fields it replaces, or why it cannot go on.
pub enum MergePlan {
    Names(Seq<char>, Seq<Seq<char>>),
    BadSpec,
    NotStr(YamlV),
    BadUsage,
}

/// The names that a list of specifications selects, item by item; the first
/// item that is not a string or whose glob does not compile stops it.
pub open spec fn list_plan(fs: Seq<Field>, items: Seq<YamlV>) -> MergePlan
    decreases items.len(),
{
    if items.len() == 0 {
        MergePlan::Names(Seq::empty(), Seq::empty())
    } else {
        match items[0] {
            YamlV::Str(v) => if !names_compile(fs, v) {
                MergePlan::BadSpec
            } else {
                match list_plan(fs, items.drop_first()) {
                    MergePlan::Names(_, rest) => MergePlan::Names(
                        Seq::empty(),
                        selected_names(fs, v) + rest,
                    ),
                    other => other,
                }
            },
            _ => MergePlan::NotStr(items[0]),
        }
    }
}

/// The plan of merging under `key` with the value `value`: a string value
/// selects the fields, a list of them selects their union, no value lets
/// `key` select them and names the result by their common prefix.
pub open spec fn merge_plan(fs: Seq<Field>, key: Seq<char>, value: Option<YamlV>) -> MergePlan {
    match value {
        None => if names_compile(fs, key) {
            MergePlan::Names(
                longest_common_prefix_spec(selected_names(fs, key)),
                selected_names(fs, key),
            )
        } else {
            MergePlan::BadSpec
        },
        Some(YamlV::Str(v)) => if names_compile(fs, v) {
            MergePlan::Names(key, selected_names(fs, v))
        } else {
            MergePlan::BadSpec
        },
        Some(YamlV::Array(items)) => match list_plan(fs, items) {
            MergePlan::Names(_, ns) => MergePlan::Names(key, ns),
            other => other,
        },
        Some(_) => MergePlan::BadUsage,
    }
}

/// The total width of the fields of `fs` named in `ns`.
pub open spec fn sum_width(fs: Seq<Field>, ns: Seq<Seq<char>>) -> nat
    decreases fs.len(),
{
    if fs.len() == 0 {
        0
    } else {
        sum_width(fs.drop_last(), ns) + if ns.contains(fs.last().name@) {
            fs.last().bit_width as nat
        } else {
            0nat
        }
    }
}

/// The lowest bit offset of the fields of `fs` named in `ns` (`u32::MAX`
/// when there is none).
pub open spec fn min_offset(fs: Seq<Field>, ns: Seq<Seq<char>>) -> u32
    decreases fs.len(),
{
    if fs.len() == 0 {
        u32::MAX
    } else {
        let m = min_offset(fs.drop_last(), ns);
        if ns.contains(fs.last().name@) && fs.last().bit_offset < m {
            fs.last().bit_offset
        } else {
            m
        }
    }
}

/// The merge of the fields named in `ns` in `fs` into the field named `name`
/// is `out`: the other fields keep their order, and the new one, with the
/// description of the first merged field, their lowest offset and their total
/// width, stands where the first of them stood.
pub open spec fn merged(fs: Seq<Field>, name: Seq<char>, ns: Seq<Seq<char>>, out: Seq<Field>) -> bool {
    let kept = fs.filter(outside(ns));
    exists|pos: int|
        #![trigger fs[pos]]
        0 <= pos < fs.len() && ns.contains(fs[pos].name@) && (forall|j: int|
            0 <= j < pos ==> !ns.contains(#[trigger] fs[j].name@)) && out.len() == kept.len() + 1
            && out.take(pos) == kept.take(pos) && out.skip(pos + 1) == kept.skip(pos) && out[pos].name@
            == name && opt_view(out[pos].description) == opt_view(fs[pos].description) && out[pos].bit_offset
            == min_offset(fs, ns) && out[pos].bit_width == sum_width(fs, ns) && plain_field(
            out[pos],
        )
}


/// The content of an optional node.
pub open spec fn opt_yv(v: Option<&Yaml>) -> Option<YamlV> {
    match v {
        Some(y) => Some(yv(*y)),
        None => None,
    }
}

/// The texts of a list of strings.
pub open spec fn texts(v: Seq<String>) -> Seq<Seq<char>> {
    v.map_values(|x: String| x@)
}

/// The names of the fields that `spec` selects; `None` when a glob does not
/// compile.
fn selected_names_of(fs: &Vec<Field>, spec: &str) -> (r: Option<Vec<String>>)
    ensures
        r is None <==> !names_compile(fs@, spec@),
        r matches Some(v) ==> texts(v@) == selected_names(fs@, spec@),
{
    let flags = match match_flags(fs, spec) {
        None => {
            return None;
        },
        Some(f) => f,
    };
    let ghost pred = sel_pred(spec@);
    let mut out: Vec<String> = Vec::new();
    let mut i: usize = 0;
    while i < fs.len()
        invariant
            flags@.len() == fs@.len(),
            forall|j: int| 0 <= j < fs@.len() ==> flags@[j] == selects(spec@, #[trigger] fs@[j]),
            pred == sel_pred(spec@),
            i <= fs@.len(),
            texts(out@) == field_names(fs@.take(i as int).filter(pred)),
        decreases fs.len() - i,
    {
        proof {
            fs@.take(i as int).lemma_filter_push(fs@[i as int], pred);
            assert(fs@.take(i + 1) =~= fs@.take(i as int).push(fs@[i as int]));
            assert(flags@[i as int] == selects(spec@, fs@[i as int]));
        }
        let ghost before = out@;
        if flags[i] {
            out.push(fs[i].name.clone());
            assert(texts(out@) =~= texts(before).push(fs@[i as int].name@));
            assert(field_names(fs@.take(i as int).filter(pred).push(fs@[i as int])) =~= field_names(
                fs@.take(i as int).filter(pred),
            ).push(fs@[i as int].name@));
        }
        i = i + 1;
    }
    assert(fs@.take(i as int) =~= fs@);
    Some(out)
}

/// Whether `names` holds the text `s`.
fn names_contain(names: &Vec<String>, s: &str) -> (r: bool)
    ensures
        r == texts(names@).contains(s@),
{
    let mut i: usize = 0;
    while i < names.len()
        invariant
            i <= names@.len(),
            forall|j: int| 0 <= j < i ==> names@[j]@ != s@,
        decreases names.len() - i,
    {
        if str_eq(names[i].as_str(), s) {
            assert(texts(names@)[i as int] == s@);
            return true;
        }
        i = i + 1;
    }
    assert(!texts(names@).contains(s@)) by {
        if texts(names@).contains(s@) {
            let j = choose|j: int| 0 <= j < texts(names@).len() && texts(names@)[j] == s@;
            assert(names@[j]@ == s@);
        }
    }
    false
}

/// The longest common prefix of two texts.
fn common_prefix_of(a: &str, b: &str) -> (r: String)
    ensures
        r@ == common_prefix(a@, b@),
{
    let n = a.unicode_len();
    let m = b.unicode_len();
    let mut i: usize = 0;
    let mut out = String::new();
    assert(a@.skip(0) =~= a@);
    assert(b@.skip(0) =~= b@);
    assert(a@.take(0) + common_prefix(a@, b@) =~= common_prefix(a@, b@));
    while i < n && i < m && a.get_char(i) == b.get_char(i)
        invariant
            n == a@.len(),
            m == b@.len(),
            i <= n,
            i <= m,
            out@ == a@.take(i as int),
            common_prefix(a@, b@) == a@.take(i as int) + common_prefix(a@.skip(i as int), b@.skip(i as int)),
        decreases n - i,
    {
        push_char(&mut out, a.get_char(i));
        proof {
            assert(a@.skip(i as int).drop_first() =~= a@.skip(i + 1));
            assert(b@.skip(i as int).drop_first() =~= b@.skip(i + 1));
            assert(a@.take(i + 1) =~= a@.take(i as int) + seq![a@[i as int]]);
        }
        i = i + 1;
    }
    assert(out@ =~= a@.take(i as int));
    out
}

/// Longest common prefix of a list of names.
pub fn longest_common_prefix(names: &Vec<String>) -> (r: String)
    ensures
        r@ == longest_common_prefix_spec(texts(names@)),
{
    if names.len() == 0 {
        return String::new();
    }
    let mut acc = names[0].clone();
    let mut i: usize = 1;
    assert(texts(names@).take(1) =~= seq![names@[0]@]);
    while i < names.len()
        invariant
            1 <= i <= names@.len(),
            acc@ == longest_common_prefix_spec(texts(names@).take(i as int)),
        decreases names.len() - i,
    {
        acc = common_prefix_of(acc.as_str(), names[i].as_str());
        proof {
            assert(texts(names@).take(i + 1).drop_last() =~= texts(names@).take(i as int));
        }
        i = i + 1;
    }
    assert(texts(names@).take(i as int) =~= texts(names@));
    acc
}


/// `acc` followed by what the plan `p` gathers.
pub open spec fn after(acc: Seq<Seq<char>>, p: MergePlan) -> MergePlan {
    match p {
        MergePlan::Names(_, rest) => MergePlan::Names(Seq::empty(), acc + rest),
        other => other,
    }
}

/// Whether `r` carries out the plan `p`.
pub open spec fn follows_plan(r: Result<(String, Vec<String>), PatchError>, p: MergePlan) -> bool {
    match p {
        MergePlan::Names(name, ns) => match r {
            Ok((n, v)) => n@ == name && texts(v@) == ns,
            Err(_) => false,
        },
        MergePlan::BadSpec => failed_with(r, PatchErrorKind::InvalidSpec),
        MergePlan::NotStr(y) => failed_on_yaml(r, YamlErrorV::NotStr(y)),
        MergePlan::BadUsage => failed_with(r, PatchErrorKind::Invalid),
    }
}

/// The name of the merged field and the names of the fields it replaces.
fn plan_names(fs: &Vec<Field>, key: &str, value: Option<&Yaml>) -> (r: Result<
    (String, Vec<String>),
    PatchError,
>)
    ensures
        follows_plan(r, merge_plan(fs@, key@, opt_yv(value))),
{
    broadcast use group_yaml_views;
    match value {
        None => match selected_names_of(fs, key) {
            None => Err(PatchError::InvalidSpec(copy_str(key))),
            Some(names) => {
                let name = longest_common_prefix(&names);
                Ok((name, names))
            },
        },
        Some(Yaml::String(v)) => match selected_names_of(fs, v.as_str()) {
            None => Err(PatchError::InvalidSpec(v.clone())),
            Some(names) => Ok((copy_str(key), names)),
        },
        Some(Yaml::Array(items)) => {
            let ghost iv = yv_seq(items@);
            let mut names: Vec<String> = Vec::new();
            let mut i: usize = 0;
            assert(iv.skip(0) =~= iv);
            assert(after(Seq::empty(), list_plan(fs@, iv)) == list_plan(fs@, iv)) by {
                match list_plan(fs@, iv) {
                    MergePlan::Names(_, rest) => {
                        assert(Seq::<Seq<char>>::empty() + rest =~= rest);
                        lemma_list_plan_names_empty_head(fs@, iv);
                    },
                    _ => {},
                }
            }
            while i < items.len()
                invariant
                    iv == yv_seq(items@),
                    iv.len() == items@.len(),
                    forall|j: int| 0 <= j < items@.len() ==> iv[j] == yv(items@[j]),
                    i <= items@.len(),
                    list_plan(fs@, iv) == after(texts(names@), list_plan(fs@, iv.skip(i as int))),
                    value == Some(&Yaml::Array(*items)),
                decreases items.len() - i,
            {
                let ghost rest = iv.skip(i as int);
                assert(rest[0] == iv[i as int]);
                assert(rest.drop_first() =~= iv.skip(i + 1));
                match &items[i] {
                    Yaml::String(v) => {
                        match selected_names_of(fs, v.as_str()) {
                            None => {
                                return Err(PatchError::InvalidSpec(v.clone()));
                            },
                            Some(more) => {
                                let ghost before = names@;
                                let mut more = more;
                                names.append(&mut more);
                                proof {
                                    assert(texts(names@) =~= texts(before) + selected_names(fs@, v@));
                                    match list_plan(fs@, iv.skip(i + 1)) {
                                        MergePlan::Names(_, r2) => {
                                            assert(texts(before) + (selected_names(fs@, v@) + r2)
                                                =~= texts(names@) + r2);
                                        },
                                        _ => {},
                                    }
                                }
                            },
                        }
                    },
                    _ => {
                        return Err(PatchError::Yaml(YamlError::NotStr(yaml_clone(&items[i]))));
                    },
                }
                i = i + 1;
            }
            proof {
                assert(iv.skip(i as int) =~= Seq::<YamlV>::empty());
                assert(texts(names@) + Seq::<Seq<char>>::empty() =~= texts(names@));
            }
            Ok((copy_str(key), names))
        },
        Some(_) => Err(PatchError::Invalid(copy_str(key))),
    }
}

proof fn lemma_list_plan_names_empty_head(fs: Seq<Field>, items: Seq<YamlV>)
    ensures
        list_plan(fs, items) matches MergePlan::Names(h, _) ==> h == Seq::<char>::empty(),
    decreases items.len(),
{
    if items.len() > 0 {
        lemma_list_plan_names_empty_head(fs, items.drop_first());
    }
}


proof fn lemma_sum_width_prefix(fs: Seq<Field>, ns: Seq<Seq<char>>, k: int)
    requires
        0 <= k <= fs.len(),
    ensures
        sum_width(fs.take(k), ns) <= sum_width(fs, ns),
    decreases fs.len() - k,
{
    if k < fs.len() {
        lemma_sum_width_prefix(fs, ns, k + 1);
        assert(fs.take(k + 1).drop_last() =~= fs.take(k));
    } else {
        assert(fs.take(k) =~= fs);
    }
}

/// Which fields of `v` the names select, their total width, their lowest
/// offset and the position of the first of them.
fn merge_stats(v: &Vec<Field>, names: &Vec<String>) -> (r: (Vec<bool>, u64, u32, Option<usize>))
    requires
        sum_width(v@, texts(names@)) <= u32::MAX,
    ensures
        r.0@.len() == v@.len(),
        forall|j: int| 0 <= j < v@.len() ==> r.0@[j] == texts(names@).contains(#[trigger] v@[j].name@),
        r.1 == sum_width(v@, texts(names@)),
        r.2 == min_offset(v@, texts(names@)),
        match r.3 {
            None => forall|j: int| 0 <= j < v@.len() ==> !texts(names@).contains(#[trigger] v@[j].name@),
            Some(p) => p < v@.len() && texts(names@).contains(v@[p as int].name@) && forall|j: int|
                0 <= j < p ==> !texts(names@).contains(#[trigger] v@[j].name@),
        },
{
    let ghost ns = texts(names@);
    let ghost orig = v@;
    let mut width: u64 = 0;
    let mut offset: u32 = u32::MAX;
    let mut pos: Option<usize> = None;
    let mut flags: Vec<bool> = Vec::new();
    let n = v.len();
    let mut i: usize = 0;
    while i < n
        invariant
            n == orig.len(),
            v@ == orig,
            ns == texts(names@),
            sum_width(orig, ns) <= u32::MAX,
            i <= n,
            flags@.len() == i,
            forall|j: int| 0 <= j < i ==> flags@[j] == ns.contains(#[trigger] orig[j].name@),
            width == sum_width(orig.take(i as int), ns),
            offset == min_offset(orig.take(i as int), ns),
            match pos {
                None => forall|j: int| 0 <= j < i ==> !ns.contains(#[trigger] orig[j].name@),
                Some(p) => p < i && ns.contains(orig[p as int].name@) && forall|j: int|
                    0 <= j < p ==> !ns.contains(#[trigger] orig[j].name@),
            },
        decreases n - i,
    {
        let inn = names_contain(names, v[i].name.as_str());
        proof {
            assert(orig.take(i + 1).drop_last() =~= orig.take(i as int));
            lemma_sum_width_prefix(orig, ns, i + 1);
        }
        if inn {
            width = width + v[i].bit_width as u64;
            if v[i].bit_offset < offset {
                offset = v[i].bit_offset;
            }
            if pos.is_none() {
                pos = Some(i);
            }
        }
        flags.push(inn);
        i = i + 1;
    }
    assert(orig.take(i as int) =~= orig);
    (flags, width, offset, pos)
}

/// The fields of `v` that `flags` does not mark, with `newf` put at `p`.
fn rebuild_merged(v: Vec<Field>, flags: &Vec<bool>, p: usize, newf: Field, Ghost(ns): Ghost<Seq<Seq<char>>>) -> (out: Vec<Field>)
    requires
        flags@.len() == v@.len(),
        forall|k: int| 0 <= k < v@.len() ==> flags@[k] == ns.contains(#[trigger] v@[k].name@),
        p < v@.len(),
        ns.contains(v@[p as int].name@),
        forall|k: int| 0 <= k < p ==> !ns.contains(#[trigger] v@[k].name@),
    ensures
        out@ == v@.filter(outside(ns)).insert(p as int, newf),
        p <= v@.filter(outside(ns)).len(),
{
    let mut v = v;
    let ghost orig = v@;
    let ghost keep = outside(ns);
    let ghost nf = newf;
    let n = v.len();
    let mut out: Vec<Field> = Vec::new();
    let mut newf_slot = Some(newf);
    let mut j: usize = 0;
    while j < n
        invariant
            n == orig.len(),
            j <= n,
            v@ == orig.skip(j as int),
            p < n,
            keep == outside(ns),
            flags@.len() == n,
            forall|k: int| 0 <= k < n ==> flags@[k] == ns.contains(#[trigger] orig[k].name@),
            ns.contains(orig[p as int].name@),
            forall|k: int| 0 <= k < p ==> !ns.contains(#[trigger] orig[k].name@),
            j <= p ==> newf_slot == Some(nf) && out@ == orig.take(j as int).filter(keep) && out@.len()
                == j,
            j > p ==> newf_slot is None && out@ == orig.take(j as int).filter(keep).insert(p as int, nf)
                && p <= orig.take(j as int).filter(keep).len(),
        decreases n - j,
    {
        assert(v@[0] == orig[j as int]);
        let f = v.remove(0);
        proof {
            orig.take(j as int).lemma_filter_push(orig[j as int], keep);
            assert(orig.take(j + 1) =~= orig.take(j as int).push(orig[j as int]));
            assert(flags@[j as int] == ns.contains(orig[j as int].name@));
        }
        if j == p {
            match newf_slot.take() {
                Some(x) => {
                    out.push(x);
                },
                None => {},
            }
            proof {
                assert(out@ =~= orig.take(j as int).filter(keep).insert(p as int, nf));
            }
        }
        if !flags[j] {
            proof {
                if j > p {
                    let base = orig.take(j as int).filter(keep);
                    assert(base.insert(p as int, nf).push(orig[j as int]) =~= base.push(
                        orig[j as int],
                    ).insert(p as int, nf));
                }
            }
            out.push(f);
        }
        j = j + 1;
        assert(v@ =~= orig.skip(j as int));
    }
    assert(orig.take(j as int) =~= orig);
    out
}

impl Register {
    /// Merge all fspec in rtag.
    /// Support list of field to auto-merge, and dict with fspec or list of fspec
    pub fn merge_fields(&mut self, key: &str, value: Option<&Yaml>) -> (r: Result<(), PatchError>)
        requires
            merge_plan(fields_of(*old(self)), key@, opt_yv(value)) matches MergePlan::Names(_, ns)
                ==> sum_width(fields_of(*old(self)), ns) <= u32::MAX,
        ensures
            r is Err ==> *final(self) == *old(self),
            match merge_plan(fields_of(*old(self)), key@, opt_yv(value)) {
                MergePlan::Names(name, ns) => if ns.len() == 0 {
                    failed_with(r, PatchErrorKind::NotFound)
                } else {
                    r is Ok && fields_replaced(*old(self), *final(self)) && merged(
                        fields_of(*old(self)),
                        name,
                        ns,
                        fields_of(*final(self)),
                    )
                },
                MergePlan::BadSpec => failed_with(r, PatchErrorKind::InvalidSpec),
                MergePlan::NotStr(y) => failed_on_yaml(r, YamlErrorV::NotStr(y)),
                MergePlan::BadUsage => failed_with(r, PatchErrorKind::Invalid),
            },
    {
        let empty: Vec<Field> = Vec::new();
        let (name, names) = match &self.fields {
            Some(v) => plan_names(v, key, value),
            None => plan_names(&empty, key, value),
        }?;
        let ghost fs = fields_of(*self);
        let ghost ns = texts(names@);
        if names.len() == 0 {
            return Err(PatchError::NotFound(copy_str(key)));
        }
        let (flags, width, offset, pos) = match &self.fields {
            Some(v) => merge_stats(v, &names),
            None => merge_stats(&empty, &names),
        };
        let p = match pos {
            Some(p) => p,
            None => {
                proof {
                    lemma_plan_named(fs, key@, opt_yv(value));
                    lemma_names_found(fs, ns);
                }
                return Err(PatchError::NotFound(copy_str(key)));
            },
        };
        let v = match self.fields.take() {
            Some(v) => v,
            None => Vec::new(),
        };
        let desc = copy_opt(&v[p].description);
        let newf = plain_field_new(name, desc, offset, width as u32);
        let ghost nf = newf;
        let out = rebuild_merged(v, &flags, p, newf, Ghost(ns));
        proof {
            let kept = fs.filter(outside(ns));
            assert(out@.take(p as int) =~= kept.take(p as int));
            assert(out@.skip(p + 1) =~= kept.skip(p as int));
            assert(out@[p as int] == nf);
            assert(fs[p as int].name@ == fs[p as int].name@);
            assert(opt_view(nf.description) == opt_view(fs[p as int].description));
            assert(plain_field(nf));
            assert(out@.len() == kept.len() + 1);
            assert(merged(fs, name@, ns, out@));
        }
        self.fields = Some(out);
        Ok(())
    }
}

/// Some field of `fs` is named `n`.
pub open spec fn has_name(fs: Seq<Field>, n: Seq<char>) -> bool {
    exists|j: int| 0 <= j < fs.len() && #[trigger] fs[j].name@ == n
}

/// Every name of `ns` is the name of some field of `fs`.
pub open spec fn all_named_in(ns: Seq<Seq<char>>, fs: Seq<Field>) -> bool {
    forall|k: int| 0 <= k < ns.len() ==> has_name(fs, #[trigger] ns[k])
}

/// Every item that a filter keeps is an item of the original sequence.
proof fn lemma_filter_subset<A>(s: Seq<A>, p: spec_fn(A) -> bool)
    ensures
        forall|i: int| 0 <= i < s.filter(p).len() ==> s.contains(#[trigger] s.filter(p)[i]),
    decreases s.len(),
{
    reveal(Seq::filter);
    if s.len() > 0 {
        lemma_filter_subset(s.drop_last(), p);
        let sub = s.drop_last().filter(p);
        assert forall|i: int| 0 <= i < s.filter(p).len() implies s.contains(#[trigger] s.filter(p)[i]) by {
            if i < sub.len() {
                assert(s.filter(p)[i] == sub[i]);
                assert(s.drop_last().contains(sub[i]));
                let k = choose|k: int| 0 <= k < s.drop_last().len() && s.drop_last()[k] == sub[i];
                assert(s[k] == sub[i]);
            } else {
                assert(s.filter(p)[i] == s.last());
                assert(s[s.len() - 1] == s.last());
            }
        }
    }
}

proof fn lemma_selected_named(fs: Seq<Field>, spec: Seq<char>)
    ensures
        all_named_in(selected_names(fs, spec), fs),
{
    let sel = fs.filter(sel_pred(spec));
    lemma_filter_subset(fs, sel_pred(spec));
    assert forall|k: int| 0 <= k < selected_names(fs, spec).len() implies has_name(
        fs,
        #[trigger] selected_names(fs, spec)[k],
    ) by {
        assert(fs.contains(sel[k]));
        let j = choose|j: int| 0 <= j < fs.len() && fs[j] == sel[k];
        assert(fs[j].name@ == selected_names(fs, spec)[k]);
    }
}

proof fn lemma_list_plan_named(fs: Seq<Field>, items: Seq<YamlV>)
    ensures
        list_plan(fs, items) matches MergePlan::Names(_, ns) ==> all_named_in(ns, fs),
    decreases items.len(),
{
    if items.len() > 0 {
        lemma_list_plan_named(fs, items.drop_first());
        if let YamlV::Str(v) = items[0] {
            lemma_selected_named(fs, v);
            if let MergePlan::Names(_, rest) = list_plan(fs, items.drop_first()) {
                let sn = selected_names(fs, v);
                let all = sn + rest;
                assert forall|k: int| 0 <= k < all.len() implies has_name(fs, #[trigger] all[k]) by {
                    if k < sn.len() {
                        assert(all[k] == sn[k]);
                    } else {
                        assert(all[k] == rest[k - sn.len()]);
                    }
                }
            }
        }
    }
}

proof fn lemma_plan_named(fs: Seq<Field>, key: Seq<char>, value: Option<YamlV>)
    ensures
        merge_plan(fs, key, value) matches MergePlan::Names(_, ns) ==> all_named_in(ns, fs),
{
    match value {
        None => lemma_selected_named(fs, key),
        Some(YamlV::Str(v)) => lemma_selected_named(fs, v),
        Some(YamlV::Array(items)) => lemma_list_plan_named(fs, items),
        _ => {},
    }
}

proof fn lemma_names_found(fs: Seq<Field>, ns: Seq<Seq<char>>)
    requires
        ns.len() > 0,
        all_named_in(ns, fs),
    ensures
        exists|j: int| 0 <= j < fs.len() && ns.contains(#[trigger] fs[j].name@),
{
    assert(has_name(fs, ns[0]));
    let j = choose|j: int| 0 <= j < fs.len() && #[trigger] fs[j].name@ == ns[0];
    assert(ns.contains(fs[j].name@));
}

} // verus!
