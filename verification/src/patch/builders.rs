//! Reading the description of a field out of a patch rule, and applying it.
use vstd::prelude::*;
use crate::model::{
    Access, BitRangeType, DimElement, Field, ModifiedWriteValues, ReadAction, WriteConstraint,
    access_of_text,
};
use crate::patch::error::{PatchError, PatchErrorKind, failed_with, failed_on_yaml};
use crate::patch::yaml::{Yaml, YamlV, YamlHash, yv, yv_seq, lemma_yv_seq, group_yaml_views};
use crate::patch::yaml_ext::{
    entry, str_of, parse_i64_spec, from_str_radix_spec, from_str_radix, YamlError, YamlErrorV,
    opt_str_res_view, res_view, read_entry,
};
use crate::text::{copy_str, opt_view, replace_all, replace_str, chars_of, push_char};

verus! {

/// Where a block of registers sits: its peripheral and the clusters leading
/// to it.
pub struct BlockPath {
    pub peripheral: String,
    pub path: Vec<String>,
}

/// Where a register sits.
pub struct RegisterPath {
    pub block: BlockPath,
    pub name: String,
}

/// The texts of a list of strings.
pub open spec fn texts_of(v: Seq<String>) -> Seq<Seq<char>> {
    v.map_values(|x: String| x@)
}

/// The dotted text of a block path: the peripheral, then each cluster.
pub open spec fn block_text(peripheral: Seq<char>, path: Seq<Seq<char>>) -> Seq<char>
    decreases path.len(),
{
    if path.len() == 0 {
        peripheral
    } else {
        block_text(peripheral, path.drop_last()) + seq!['.'] + path.last()
    }
}

impl BlockPath {
    /// The dotted text of this path.
    pub open spec fn text(&self) -> Seq<char> {
        block_text(self.peripheral@, texts_of(self.path@))
    }

    /// The dotted text of this path.
    pub fn to_text(&self) -> (r: String)
        ensures
            r@ == self.text(),
    {
        let mut out = copy_str(self.peripheral.as_str());
        let mut i: usize = 0;
        while i < self.path.len()
            invariant
                i <= self.path@.len(),
                out@ == block_text(self.peripheral@, texts_of(self.path@).take(i as int)),
            decreases self.path.len() - i,
        {
            push_char(&mut out, '.');
            out.append(self.path[i].as_str());
            proof {
                assert(texts_of(self.path@).take(i + 1).drop_last() =~= texts_of(self.path@).take(
                    i as int,
                ));
            }
            i = i + 1;
        }
        assert(texts_of(self.path@).take(i as int) =~= texts_of(self.path@));
        out
    }
}

impl RegisterPath {
    /// The dotted text of this path.
    pub open spec fn text(&self) -> Seq<char> {
        self.block.text() + seq!['.'] + self.name@
    }
}

/// The text with backquotes around `w`.
pub open spec fn quoted(w: Seq<char>) -> Seq<char> {
    seq!['`'] + w + seq!['`']
}

/// `s` with the names of its place filled in: `` `peripheral` ``,
/// `` `block_path` ``, `` `register` `` and `` `register_path` ``, in that
/// order.
pub open spec fn interpolated(p: RegisterPath, s: Seq<char>) -> Seq<char> {
    let s1 = replace_all(s, quoted(seq!['p', 'e', 'r', 'i', 'p', 'h', 'e', 'r', 'a', 'l']), p.block.peripheral@);
    let s2 = replace_all(s1, quoted(seq!['b', 'l', 'o', 'c', 'k', '_', 'p', 'a', 't', 'h']), p.block.text());
    let s3 = replace_all(s2, quoted(seq!['r', 'e', 'g', 'i', 's', 't', 'e', 'r']), p.name@);
    replace_all(
        s3,
        quoted(seq!['r', 'e', 'g', 'i', 's', 't', 'e', 'r', '_', 'p', 'a', 't', 'h']),
        p.text(),
    )
}

/// Fills in the names of the register's place in `s` (see [`interpolated`]).
pub fn interpolate(p: &RegisterPath, s: &str) -> (r: String)
    ensures
        r@ == interpolated(*p, s@),
{
    proof {
        reveal_strlit("`peripheral`");
        reveal_strlit("`block_path`");
        reveal_strlit("`register`");
        reveal_strlit("`register_path`");
        assert("`peripheral`"@ =~= quoted(seq!['p', 'e', 'r', 'i', 'p', 'h', 'e', 'r', 'a', 'l']));
        assert("`block_path`"@ =~= quoted(seq!['b', 'l', 'o', 'c', 'k', '_', 'p', 'a', 't', 'h']));
        assert("`register`"@ =~= quoted(seq!['r', 'e', 'g', 'i', 's', 't', 'e', 'r']));
        assert("`register_path`"@ =~= quoted(
            seq!['r', 'e', 'g', 'i', 's', 't', 'e', 'r', '_', 'p', 'a', 't', 'h'],
        ));
    }
    let bp = p.block.to_text();
    let mut rp = p.block.to_text();
    push_char(&mut rp, '.');
    rp.append(p.name.as_str());
    assert(rp@ =~= p.text());
    let s1 = replace_str(s, "`peripheral`", p.block.peripheral.as_str());
    let s2 = replace_str(s1.as_str(), "`block_path`", bp.as_str());
    let s3 = replace_str(s2.as_str(), "`register`", p.name.as_str());
    replace_str(s3.as_str(), "`register_path`", rp.as_str())
}

/// An optional text with the names of the place filled in when there is one.
pub open spec fn opt_interpolated(p: Option<&RegisterPath>, s: Option<Seq<char>>) -> Option<Seq<char>> {
    match s {
        None => None,
        Some(t) => match p {
            Some(q) => Some(interpolated(*q, t)),
            None => Some(t),
        },
    }
}

fn opt_interpolate(p: Option<&RegisterPath>, s: Option<&str>) -> (r: Option<String>)
    ensures
        opt_view(r) == opt_interpolated(p, match s {
            Some(t) => Some(t@),
            None => None,
        }),
{
    match s {
        None => None,
        Some(t) => match p {
            Some(q) => Some(interpolate(q, t)),
            None => Some(copy_str(t)),
        },
    }
}

/// The number that `s` spells as a `u32` in decimal (`u32::from_str`): an
/// optional `+`, then digits.
pub open spec fn u32_text(s: Seq<char>) -> Option<u32> {
    if s.len() > 0 && s[0] == '-' {
        None
    } else {
        match from_str_radix_spec(s, 10) {
            Some(v) => if 0 <= v <= u32::MAX {
                Some(v as u32)
            } else {
                None
            },
            None => None,
        }
    }
}

fn parse_u32_text(s: &Vec<char>) -> (r: Option<u32>)
    ensures
        r == u32_text(s@),
{
    if s.len() > 0 && s[0] == '-' {
        return None;
    }
    match from_str_radix(s, 10) {
        Some(v) => if 0 <= v && v <= 0xffff_ffff {
            Some(v as u32)
        } else {
            None
        },
        None => None,
    }
}

/// The text before the first `:` of `s`, and what follows it if there is one.
pub open spec fn colon_parts(s: Seq<char>) -> (Seq<char>, Option<Seq<char>>)
    decreases s.len(),
{
    if s.len() == 0 {
        (s, None)
    } else if s[0] == ':' {
        (Seq::empty(), Some(s.drop_first()))
    } else {
        let (a, b) = colon_parts(s.drop_first());
        (seq![s[0]] + a, b)
    }
}

/// The text before the first `:` of `s`, if any.
pub open spec fn before_colon(s: Seq<char>) -> Seq<char> {
    colon_parts(s).0
}

/// The bits that `[msb:lsb]` names, as offset and width
/// (`BitRange::from_bit_range`); `None` when the text is not of that form, or
/// when `lsb` exceeds `msb` or the width does not fit.
pub open spec fn bit_range_text(t: Seq<char>) -> Option<(u32, u32)> {
    if t.len() < 2 || t[0] != '[' || t[t.len() - 1] != ']' {
        None
    } else {
        let inner = t.subrange(1, t.len() - 1);
        let (a, rest) = colon_parts(inner);
        match rest {
            None => None,
            Some(r) => match (u32_text(a), u32_text(before_colon(r))) {
                (Some(msb), Some(lsb)) => if lsb <= msb && msb - lsb + 1 <= u32::MAX {
                    Some((lsb, (msb - lsb + 1) as u32))
                } else {
                    None
                },
                _ => None,
            },
        }
    }
}

/// The text before the first `:` of `cs` from `lo` to `hi`, and the position
/// after that `:` (when there is one).
fn split_colon(cs: &Vec<char>, lo: usize, hi: usize) -> (r: (Vec<char>, Option<usize>))
    requires
        lo <= hi <= cs@.len(),
    ensures
        r.0@ == colon_parts(cs@.subrange(lo as int, hi as int)).0,
        match (r.1, colon_parts(cs@.subrange(lo as int, hi as int)).1) {
            (Some(k), Some(rest)) => lo < k <= hi && rest == cs@.subrange(k as int, hi as int),
            (None, None) => true,
            _ => false,
        },
    decreases hi - lo,
{
    if lo == hi {
        assert(cs@.subrange(lo as int, hi as int) =~= Seq::<char>::empty());
        return (Vec::new(), None);
    }
    let ghost s = cs@.subrange(lo as int, hi as int);
    assert(s.drop_first() =~= cs@.subrange(lo + 1, hi as int));
    if cs[lo] == ':' {
        return (Vec::new(), Some(lo + 1));
    }
    let (rest, k) = split_colon(cs, lo + 1, hi);
    let mut out: Vec<char> = Vec::new();
    out.push(cs[lo]);
    let mut j: usize = 0;
    while j < rest.len()
        invariant
            j <= rest@.len(),
            out@ == seq![cs@[lo as int]] + rest@.take(j as int),
        decreases rest.len() - j,
    {
        out.push(rest[j]);
        j = j + 1;
        assert(out@ =~= seq![cs@[lo as int]] + rest@.take(j as int));
    }
    assert(rest@.take(j as int) =~= rest@);
    (out, k)
}

/// Reads `[msb:lsb]` (see [`bit_range_text`]).
pub fn parse_bit_range(t: &str) -> (r: Option<(u32, u32)>)
    ensures
        r == bit_range_text(t@),
{
    let cs = chars_of(t);
    let n = cs.len();
    if n < 2 || cs[0] != '[' || cs[n - 1] != ']' {
        return None;
    }
    let (a, rest) = split_colon(&cs, 1, n - 1);
    let k = match rest {
        None => {
            return None;
        },
        Some(k) => k,
    };
    let (b, _) = split_colon(&cs, k, n - 1);
    let msb = match parse_u32_text(&a) {
        None => {
            return None;
        },
        Some(x) => x,
    };
    let lsb = match parse_u32_text(&b) {
        None => {
            return None;
        },
        Some(x) => x,
    };
    if lsb <= msb && msb - lsb < 0xffff_ffff {
        Some((lsb, msb - lsb + 1))
    } else {
        None
    }
}


/// Why a rule could not be read: a node of the wrong type, or a value that
/// makes no sense.
pub enum ReadErr {
    Yaml(YamlErrorV),
    Invalid,
}

/// Whether `r` failed as `e` says.
pub open spec fn failed_reading<T>(r: Result<T, PatchError>, e: ReadErr) -> bool {
    match e {
        ReadErr::Yaml(y) => failed_on_yaml(r, y),
        ReadErr::Invalid => failed_with(r, PatchErrorKind::Invalid),
    }
}

/// The text under `k` in `h`: absent, a string, or an error.
pub open spec fn text_entry(h: Seq<(YamlV, YamlV)>, k: Seq<char>) -> Result<Option<Seq<char>>, ReadErr> {
    match entry(h, k) {
        None => Ok(None),
        Some(v) => match str_of(v) {
            Some(t) => Ok(Some(t)),
            None => Err(ReadErr::Yaml(YamlErrorV::NotStr(v))),
        },
    }
}

/// The integer under `k` in `h`: absent, an integer, or an error.
pub open spec fn int_entry(h: Seq<(YamlV, YamlV)>, k: Seq<char>) -> Result<Option<i64>, ReadErr> {
    match entry(h, k) {
        None => Ok(None),
        Some(v) => match parse_i64_spec(v) {
            Some(i) => Ok(Some(i)),
            None => Err(ReadErr::Yaml(YamlErrorV::NotInt(v))),
        },
    }
}

fn get_text<'a>(h: &'a YamlHash, k: &str) -> (r: Result<Option<&'a str>, PatchError>)
    ensures
        match text_entry(h.view_pairs(), k@) {
            Ok(o) => r matches Ok(x) && match (x, o) {
                (Some(a), Some(b)) => a@ == b,
                (None, None) => true,
                _ => false,
            },
            Err(e) => failed_reading(r, e),
        },
{
    match h.get_str(k) {
        Ok(x) => Ok(x),
        Err(e) => Err(PatchError::Yaml(e)),
    }
}

fn get_int(h: &YamlHash, k: &str) -> (r: Result<Option<i64>, PatchError>)
    ensures
        match int_entry(h.view_pairs(), k@) {
            Ok(o) => r == Ok::<Option<i64>, PatchError>(o),
            Err(e) => failed_reading(r, e),
        },
{
    match h.get_i64(k) {
        Ok(x) => Ok(x),
        Err(e) => Err(PatchError::Yaml(e)),
    }
}

/// The spelling of each modified-write-values kind.
pub open spec fn mwv_of_text(s: Seq<char>) -> Option<ModifiedWriteValues> {
    if s == seq!['o', 'n', 'e', 'T', 'o', 'C', 'l', 'e', 'a', 'r'] {
        Some(ModifiedWriteValues::OneToClear)
    } else if s == seq!['o', 'n', 'e', 'T', 'o', 'S', 'e', 't'] {
        Some(ModifiedWriteValues::OneToSet)
    } else if s == seq!['o', 'n', 'e', 'T', 'o', 'T', 'o', 'g', 'g', 'l', 'e'] {
        Some(ModifiedWriteValues::OneToToggle)
    } else if s == seq!['z', 'e', 'r', 'o', 'T', 'o', 'C', 'l', 'e', 'a', 'r'] {
        Some(ModifiedWriteValues::ZeroToClear)
    } else if s == seq!['z', 'e', 'r', 'o', 'T', 'o', 'S', 'e', 't'] {
        Some(ModifiedWriteValues::ZeroToSet)
    } else if s == seq!['z', 'e', 'r', 'o', 'T', 'o', 'T', 'o', 'g', 'g', 'l', 'e'] {
        Some(ModifiedWriteValues::ZeroToToggle)
    } else if s == seq!['c', 'l', 'e', 'a', 'r'] {
        Some(ModifiedWriteValues::Clear)
    } else if s == seq!['s', 'e', 't'] {
        Some(ModifiedWriteValues::SetBits)
    } else if s == seq!['m', 'o', 'd', 'i', 'f', 'y'] {
        Some(ModifiedWriteValues::Modify)
    } else {
        None
    }
}

/// Reads a modified-write-values kind.
pub fn parse_mwv(s: &str) -> (r: Option<ModifiedWriteValues>)
    ensures
        r == mwv_of_text(s@),
{
    proof {
        reveal_strlit("oneToClear");
        reveal_strlit("oneToSet");
        reveal_strlit("oneToToggle");
        reveal_strlit("zeroToClear");
        reveal_strlit("zeroToSet");
        reveal_strlit("zeroToToggle");
        reveal_strlit("clear");
        reveal_strlit("set");
        reveal_strlit("modify");
        assert("oneToClear"@ =~= seq!['o', 'n', 'e', 'T', 'o', 'C', 'l', 'e', 'a', 'r']);
        assert("oneToSet"@ =~= seq!['o', 'n', 'e', 'T', 'o', 'S', 'e', 't']);
        assert("oneToToggle"@ =~= seq!['o', 'n', 'e', 'T', 'o', 'T', 'o', 'g', 'g', 'l', 'e']);
        assert("zeroToClear"@ =~= seq!['z', 'e', 'r', 'o', 'T', 'o', 'C', 'l', 'e', 'a', 'r']);
        assert("zeroToSet"@ =~= seq!['z', 'e', 'r', 'o', 'T', 'o', 'S', 'e', 't']);
        assert("zeroToToggle"@ =~= seq!['z', 'e', 'r', 'o', 'T', 'o', 'T', 'o', 'g', 'g', 'l', 'e']);
        assert("clear"@ =~= seq!['c', 'l', 'e', 'a', 'r']);
        assert("set"@ =~= seq!['s', 'e', 't']);
        assert("modify"@ =~= seq!['m', 'o', 'd', 'i', 'f', 'y']);
    }
    if crate::text::str_eq(s, "oneToClear") {
        Some(ModifiedWriteValues::OneToClear)
    } else if crate::text::str_eq(s, "oneToSet") {
        Some(ModifiedWriteValues::OneToSet)
    } else if crate::text::str_eq(s, "oneToToggle") {
        Some(ModifiedWriteValues::OneToToggle)
    } else if crate::text::str_eq(s, "zeroToClear") {
        Some(ModifiedWriteValues::ZeroToClear)
    } else if crate::text::str_eq(s, "zeroToSet") {
        Some(ModifiedWriteValues::ZeroToSet)
    } else if crate::text::str_eq(s, "zeroToToggle") {
        Some(ModifiedWriteValues::ZeroToToggle)
    } else if crate::text::str_eq(s, "clear") {
        Some(ModifiedWriteValues::Clear)
    } else if crate::text::str_eq(s, "set") {
        Some(ModifiedWriteValues::SetBits)
    } else if crate::text::str_eq(s, "modify") {
        Some(ModifiedWriteValues::Modify)
    } else {
        None
    }
}

/// The spelling of each read action.
pub open spec fn read_action_of_text(s: Seq<char>) -> Option<ReadAction> {
    if s == seq!['c', 'l', 'e', 'a', 'r'] {
        Some(ReadAction::Clear)
    } else if s == seq!['s', 'e', 't'] {
        Some(ReadAction::SetBits)
    } else if s == seq!['m', 'o', 'd', 'i', 'f', 'y'] {
        Some(ReadAction::Modify)
    } else if s == seq!['m', 'o', 'd', 'i', 'f', 'y', 'E', 'x', 't', 'e', 'r', 'n', 'a', 'l'] {
        Some(ReadAction::ModifyExternal)
    } else {
        None
    }
}

/// Reads a read action.
pub fn parse_read_action(s: &str) -> (r: Option<ReadAction>)
    ensures
        r == read_action_of_text(s@),
{
    proof {
        reveal_strlit("clear");
        reveal_strlit("set");
        reveal_strlit("modify");
        reveal_strlit("modifyExternal");
        assert("clear"@ =~= seq!['c', 'l', 'e', 'a', 'r']);
        assert("set"@ =~= seq!['s', 'e', 't']);
        assert("modify"@ =~= seq!['m', 'o', 'd', 'i', 'f', 'y']);
        assert("modifyExternal"@ =~= seq!['m', 'o', 'd', 'i', 'f', 'y', 'E', 'x', 't', 'e', 'r', 'n', 'a', 'l']);
    }
    if crate::text::str_eq(s, "clear") {
        Some(ReadAction::Clear)
    } else if crate::text::str_eq(s, "set") {
        Some(ReadAction::SetBits)
    } else if crate::text::str_eq(s, "modify") {
        Some(ReadAction::Modify)
    } else if crate::text::str_eq(s, "modifyExternal") {
        Some(ReadAction::ModifyExternal)
    } else {
        None
    }
}

/// The write constraint a rule asks for under `_write_constraint` (or else
/// `writeConstraint`): `none` removes it, `enum` allows the enumerated values,
/// `[min, max]` a range; outer `None` when no such key is given.
pub open spec fn write_constraint_spec(h: Seq<(YamlV, YamlV)>) -> Result<Option<Option<WriteConstraint>>, ReadErr> {
    let e = match entry(h, seq!['_', 'w', 'r', 'i', 't', 'e', '_', 'c', 'o', 'n', 's', 't', 'r', 'a', 'i', 'n', 't']) {
        Some(v) => Some(v),
        None => entry(h, seq!['w', 'r', 'i', 't', 'e', 'C', 'o', 'n', 's', 't', 'r', 'a', 'i', 'n', 't']),
    };
    match e {
        None => Ok(None),
        Some(YamlV::Str(t)) => if t == seq!['n', 'o', 'n', 'e'] {
            Ok(Some(None))
        } else if t == seq!['e', 'n', 'u', 'm'] {
            Ok(Some(Some(WriteConstraint::UseEnumeratedValues(true))))
        } else {
            Err(ReadErr::Invalid)
        },
        Some(YamlV::Array(a)) => if a.len() < 2 {
            Err(ReadErr::Invalid)
        } else {
            match parse_i64_spec(a[0]) {
                None => Err(ReadErr::Yaml(YamlErrorV::NotInt(a[0]))),
                Some(lo) => match parse_i64_spec(a[1]) {
                    None => Err(ReadErr::Yaml(YamlErrorV::NotInt(a[1]))),
                    Some(hi) => Ok(Some(Some(WriteConstraint::Range(lo as u64, hi as u64)))),
                },
            }
        },
        Some(_) => Err(ReadErr::Invalid),
    }
}

/// Reads the write constraint of a rule (see [`write_constraint_spec`]).
pub fn get_write_constraint(h: &YamlHash) -> (r: Result<Option<Option<WriteConstraint>>, PatchError>)
    ensures
        match write_constraint_spec(h.view_pairs()) {
            Ok(w) => r == Ok::<Option<Option<WriteConstraint>>, PatchError>(w),
            Err(e) => failed_reading(r, e),
        },
{
    broadcast use group_yaml_views;
    proof {
        reveal_strlit("_write_constraint");
        reveal_strlit("writeConstraint");
        reveal_strlit("none");
        reveal_strlit("enum");
        assert("_write_constraint"@ =~= seq!['_', 'w', 'r', 'i', 't', 'e', '_', 'c', 'o', 'n', 's', 't', 'r', 'a', 'i', 'n', 't']);
        assert("writeConstraint"@ =~= seq!['w', 'r', 'i', 't', 'e', 'C', 'o', 'n', 's', 't', 'r', 'a', 'i', 'n', 't']);
        assert("none"@ =~= seq!['n', 'o', 'n', 'e']);
        assert("enum"@ =~= seq!['e', 'n', 'u', 'm']);
    }
    let v = match h.get_yaml("_write_constraint") {
        Some(v) => v,
        None => match h.get_yaml("writeConstraint") {
            Some(v) => v,
            None => {
                return Ok(None);
            },
        },
    };
    match v {
        Yaml::String(t) => {
            if crate::text::str_eq(t.as_str(), "none") {
                Ok(Some(None))
            } else if crate::text::str_eq(t.as_str(), "enum") {
                Ok(Some(Some(WriteConstraint::UseEnumeratedValues(true))))
            } else {
                Err(PatchError::Invalid(copy_str(t.as_str())))
            }
        },
        Yaml::Array(a) => {
            proof {
                lemma_yv_seq(a@);
            }
            if a.len() < 2 {
                return Err(PatchError::Invalid(String::new()));
            }
            let lo = match a[0].i64() {
                Ok(x) => x,
                Err(e) => {
                    return Err(PatchError::Yaml(e));
                },
            };
            let hi = match a[1].i64() {
                Ok(x) => x,
                Err(e) => {
                    return Err(PatchError::Yaml(e));
                },
            };
            Ok(Some(Some(WriteConstraint::Range(#[verifier::truncate] (lo as u64), #[verifier::truncate] (hi as u64)))))
        },
        _ => Err(PatchError::Invalid(String::new())),
    }
}


/// What a rule says about the bits of a field.
#[derive(Clone, Copy)]
pub enum Bits {
    /// Nothing.
    Unset,
    /// Offset and width, and how they were written.
    Range(u32, u32, BitRangeType),
    /// Only the offset.
    Offset(u32),
    /// Only the width.
    Width(u32),
}

/// What a rule sets on a field (what it leaves out stays as it is).
pub struct FieldPatch {
    pub name: Option<String>,
    pub description: Option<String>,
    pub derived_from: Option<String>,
    pub access: Option<Access>,
    pub modified_write_values: Option<ModifiedWriteValues>,
    pub read_action: Option<ReadAction>,
    pub write_constraint: Option<WriteConstraint>,
    pub bits: Bits,
}

/// The content of a [`FieldPatch`].
pub struct FieldPatchV {
    pub name: Option<Seq<char>>,
    pub description: Option<Seq<char>>,
    pub derived_from: Option<Seq<char>>,
    pub access: Option<Access>,
    pub modified_write_values: Option<ModifiedWriteValues>,
    pub read_action: Option<ReadAction>,
    pub write_constraint: Option<WriteConstraint>,
    pub bits: Bits,
}

impl View for FieldPatch {
    type V = FieldPatchV;

    open spec fn view(&self) -> FieldPatchV {
        FieldPatchV {
            name: opt_view(self.name),
            description: opt_view(self.description),
            derived_from: opt_view(self.derived_from),
            access: self.access,
            modified_write_values: self.modified_write_values,
            read_action: self.read_action,
            write_constraint: self.write_constraint,
            bits: self.bits,
        }
    }
}

/// The bits given by `bitOffset` and `bitWidth`.
pub open spec fn offset_width_bits(off: Option<i64>, wid: Option<i64>) -> Bits {
    match (off, wid) {
        (Some(o), Some(w)) => Bits::Range(o as u32, w as u32, BitRangeType::OffsetWidth),
        (Some(o), None) => Bits::Offset(o as u32),
        (None, Some(w)) => Bits::Width(w as u32),
        (None, None) => Bits::Unset,
    }
}

/// What a rule says about the bits: `msb` with `lsb`, else `bitRange`, else
/// `bitOffset` and `bitWidth`.
pub open spec fn bits_spec(h: Seq<(YamlV, YamlV)>) -> Result<Bits, ReadErr> {
    match int_entry(h, seq!['m', 's', 'b']) {
        Err(e) => Err(e),
        Ok(msb) => match int_entry(h, seq!['l', 's', 'b']) {
            Err(e) => Err(e),
            Ok(lsb) => if msb is Some && lsb is Some {
                let m = msb.unwrap() as u32;
                let l = lsb.unwrap() as u32;
                if l <= m && m - l + 1 <= u32::MAX {
                    Ok(Bits::Range(l, (m - l + 1) as u32, BitRangeType::MsbLsb))
                } else {
                    Err(ReadErr::Invalid)
                }
            } else {
                match text_entry(h, seq!['b', 'i', 't', 'R', 'a', 'n', 'g', 'e']) {
                    Err(e) => Err(e),
                    Ok(br) => match (match br {
                        Some(t) => bit_range_text(t),
                        None => None,
                    }) {
                        Some((o, w)) => Ok(Bits::Range(o, w, BitRangeType::BitRange)),
                        None => match int_entry(h, seq!['b', 'i', 't', 'O', 'f', 'f', 's', 'e', 't']) {
                            Err(e) => Err(e),
                            Ok(off) => match int_entry(h, seq!['b', 'i', 't', 'W', 'i', 'd', 't', 'h']) {
                                Err(e) => Err(e),
                                Ok(wid) => Ok(offset_width_bits(off, wid)),
                            },
                        },
                    },
                }
            }
        },
    }
}

fn get_bits(h: &YamlHash) -> (r: Result<Bits, PatchError>)
    ensures
        match bits_spec(h.view_pairs()) {
            Ok(b) => r == Ok::<Bits, PatchError>(b),
            Err(e) => failed_reading(r, e),
        },
{
    proof {
        reveal_strlit("msb");
        reveal_strlit("lsb");
        reveal_strlit("bitRange");
        reveal_strlit("bitOffset");
        reveal_strlit("bitWidth");
        assert("msb"@ =~= seq!['m', 's', 'b']);
        assert("lsb"@ =~= seq!['l', 's', 'b']);
        assert("bitRange"@ =~= seq!['b', 'i', 't', 'R', 'a', 'n', 'g', 'e']);
        assert("bitOffset"@ =~= seq!['b', 'i', 't', 'O', 'f', 'f', 's', 'e', 't']);
        assert("bitWidth"@ =~= seq!['b', 'i', 't', 'W', 'i', 'd', 't', 'h']);
    }
    let msb = get_int(h, "msb")?;
    let lsb = get_int(h, "lsb")?;
    match (msb, lsb) {
        (Some(m), Some(l)) => {
            let m = #[verifier::truncate] (m as u32);
            let l = #[verifier::truncate] (l as u32);
            if l <= m && m - l < 0xffff_ffff {
                return Ok(Bits::Range(l, m - l + 1, BitRangeType::MsbLsb));
            }
            return Err(PatchError::Invalid(String::new()));
        },
        _ => {},
    }
    let br = get_text(h, "bitRange")?;
    let parsed = match br {
        Some(t) => parse_bit_range(t),
        None => None,
    };
    match parsed {
        Some((o, w)) => Ok(Bits::Range(o, w, BitRangeType::BitRange)),
        None => {
            let off = get_int(h, "bitOffset")?;
            let wid = get_int(h, "bitWidth")?;
            Ok(
                match (off, wid) {
                    (Some(o), Some(w)) => Bits::Range(
                        #[verifier::truncate] (o as u32),
                        #[verifier::truncate] (w as u32),
                        BitRangeType::OffsetWidth,
                    ),
                    (Some(o), None) => Bits::Offset(#[verifier::truncate] (o as u32)),
                    (None, Some(w)) => Bits::Width(#[verifier::truncate] (w as u32)),
                    (None, None) => Bits::Unset,
                },
            )
        },
    }
}

/// The texts of the keys a field rule reads.
pub open spec fn k_description() -> Seq<char> {
    seq!['d', 'e', 's', 'c', 'r', 'i', 'p', 't', 'i', 'o', 'n']
}

/// The key `derivedFrom`.
pub open spec fn k_derived_from() -> Seq<char> {
    seq!['d', 'e', 'r', 'i', 'v', 'e', 'd', 'F', 'r', 'o', 'm']
}

/// The key `access`.
pub open spec fn k_access() -> Seq<char> {
    seq!['a', 'c', 'c', 'e', 's', 's']
}

/// The key `modifiedWriteValues`.
pub open spec fn k_mwv() -> Seq<char> {
    seq!['m', 'o', 'd', 'i', 'f', 'i', 'e', 'd', 'W', 'r', 'i', 't', 'e', 'V', 'a', 'l', 'u', 'e', 's']
}

/// The key `readAction`.
pub open spec fn k_read_action() -> Seq<char> {
    seq!['r', 'e', 'a', 'd', 'A', 'c', 't', 'i', 'o', 'n']
}

/// The key `name`.
pub open spec fn k_name() -> Seq<char> {
    seq!['n', 'a', 'm', 'e']
}

/// What a field rule `h` sets (interpolating the names of the place `p` into
/// its description and `derivedFrom`), or why it cannot be read.
pub open spec fn field_patch_spec(h: Seq<(YamlV, YamlV)>, p: Option<&RegisterPath>) -> Result<FieldPatchV, ReadErr> {
    match text_entry(h, k_description()) {
        Err(e) => Err(e),
        Ok(desc) => match text_entry(h, k_derived_from()) {
            Err(e) => Err(e),
            Ok(der) => match text_entry(h, k_access()) {
                Err(e) => Err(e),
                Ok(acc) => match text_entry(h, k_mwv()) {
                    Err(e) => Err(e),
                    Ok(mwv) => match text_entry(h, k_read_action()) {
                        Err(e) => Err(e),
                        Ok(ra) => match write_constraint_spec(h) {
                            Err(e) => Err(e),
                            Ok(wc) => match text_entry(h, k_name()) {
                                Err(e) => Err(e),
                                Ok(nm) => match bits_spec(h) {
                                    Err(e) => Err(e),
                                    Ok(bits) => Ok(
                                        FieldPatchV {
                                            name: nm,
                                            description: opt_interpolated(p, desc),
                                            derived_from: opt_interpolated(p, der),
                                            access: match acc {
                                                Some(t) => access_of_text(t),
                                                None => None,
                                            },
                                            modified_write_values: match mwv {
                                                Some(t) => mwv_of_text(t),
                                                None => None,
                                            },
                                            read_action: match ra {
                                                Some(t) => read_action_of_text(t),
                                                None => None,
                                            },
                                            write_constraint: match wc {
                                                Some(w) => w,
                                                None => None,
                                            },
                                            bits,
                                        },
                                    ),
                                },
                            },
                        },
                    },
                },
            },
        },
    }
}

/// Reads what a field rule sets (see [`field_patch_spec`]).
#[verifier::rlimit(60)]
pub fn make_field(fadd: &YamlHash, p: Option<&RegisterPath>) -> (r: Result<FieldPatch, PatchError>)
    ensures
        match field_patch_spec(fadd.view_pairs(), p) {
            Ok(v) => r matches Ok(b) && b@ == v,
            Err(e) => failed_reading(r, e),
        },
{
    proof {
        reveal_strlit("description");
        reveal_strlit("derivedFrom");
        reveal_strlit("access");
        reveal_strlit("modifiedWriteValues");
        reveal_strlit("readAction");
        reveal_strlit("name");
        assert("description"@ =~= k_description());
        assert("derivedFrom"@ =~= k_derived_from());
        assert("access"@ =~= k_access());
        assert("modifiedWriteValues"@ =~= k_mwv());
        assert("readAction"@ =~= k_read_action());
        assert("name"@ =~= k_name());
    }
    let desc = get_text(fadd, "description")?;
    let der = get_text(fadd, "derivedFrom")?;
    let acc = get_text(fadd, "access")?;
    let mwv = get_text(fadd, "modifiedWriteValues")?;
    let ra = get_text(fadd, "readAction")?;
    let wc = get_write_constraint(fadd)?;
    let nm = get_text(fadd, "name")?;
    let bits = get_bits(fadd)?;
    Ok(
        FieldPatch {
            name: match nm {
                Some(t) => Some(copy_str(t)),
                None => None,
            },
            description: opt_interpolate(p, desc),
            derived_from: opt_interpolate(p, der),
            access: match acc {
                Some(t) => Access::parse_str(t),
                None => None,
            },
            modified_write_values: match mwv {
                Some(t) => parse_mwv(t),
                None => None,
            },
            read_action: match ra {
                Some(t) => parse_read_action(t),
                None => None,
            },
            write_constraint: match wc {
                Some(w) => w,
                None => None,
            },
            bits,
        },
    )
}


/// An empty text counts as none.
pub open spec fn empty_to_none(t: Seq<char>) -> Option<Seq<char>> {
    if t.len() == 0 {
        None
    } else {
        Some(t)
    }
}

/// The value `x` fits in `w` bits (every value fits in 64 or more).
pub open spec fn fits(x: u64, w: u32) -> bool {
    w >= 64 || x >> w == 0
}

/// Every enumerated value of `f` fits in its width, and the width is not
/// zero (what a field has to satisfy once it is changed).
pub open spec fn field_valid(f: Field) -> bool {
    &&& f.bit_width != 0
    &&& forall|i: int, j: int|
        0 <= i < f.enumerated_values@.len() && 0 <= j < f.enumerated_values@[i].values@.len()
            ==> match #[trigger] f.enumerated_values@[i].values@[j].value {
            Some(x) => fits(x, f.bit_width),
            None => true,
        }
}

/// Checks [`field_valid`].
pub fn check_field(f: &Field) -> (r: bool)
    ensures
        r == field_valid(*f),
{
    if f.bit_width == 0 {
        return false;
    }
    let w = f.bit_width;
    let mut i: usize = 0;
    while i < f.enumerated_values.len()
        invariant
            w == f.bit_width,
            i <= f.enumerated_values@.len(),
            forall|a: int, b: int|
                0 <= a < i && 0 <= b < f.enumerated_values@[a].values@.len() ==> match #[trigger] f.enumerated_values@[a].values@[b].value {
                    Some(x) => fits(x, w),
                    None => true,
                },
        decreases f.enumerated_values.len() - i,
    {
        let vs = &f.enumerated_values[i].values;
        let mut j: usize = 0;
        while j < vs.len()
            invariant
                w == f.bit_width,
                i < f.enumerated_values@.len(),
                vs == f.enumerated_values@[i as int].values,
                j <= vs@.len(),
                forall|a: int, b: int|
                    0 <= a < i && 0 <= b < f.enumerated_values@[a].values@.len() ==> match #[trigger] f.enumerated_values@[a].values@[b].value {
                        Some(x) => fits(x, w),
                        None => true,
                    },
                forall|b: int|
                    0 <= b < j ==> match #[trigger] vs@[b].value {
                        Some(x) => fits(x, w),
                        None => true,
                    },
            decreases vs.len() - j,
        {
            match vs[j].value {
                Some(x) => {
                    if w < 64 && (x >> w) != 0 {
                        assert(!fits(x, w));
                        assert(f.enumerated_values@[i as int].values@[j as int].value == Some(x));
                        return false;
                    }
                },
                None => {},
            }
            j = j + 1;
        }
        i = i + 1;
    }
    true
}

/// `out` is field `a` with what the patch `b` sets.
pub open spec fn field_patched(a: Field, b: FieldPatchV, out: Field) -> bool {
    &&& match b.name {
        Some(n) => out.name@ == n,
        None => out.name == a.name,
    }
    &&& match b.description {
        Some(d) => opt_view(out.description) == empty_to_none(d),
        None => out.description == a.description,
    }
    &&& match b.bits {
        Bits::Range(o, w, t) => out.bit_offset == o && out.bit_width == w && out.range_type == t,
        Bits::Offset(o) => out.bit_offset == o && out.bit_width == a.bit_width && out.range_type == a.range_type,
        Bits::Width(w) => out.bit_offset == a.bit_offset && out.bit_width == w && out.range_type == a.range_type,
        Bits::Unset => out.bit_offset == a.bit_offset && out.bit_width == a.bit_width && out.range_type == a.range_type,
    }
    &&& out.access == if b.access is Some { b.access } else { a.access }
    &&& match b.derived_from {
        Some(d) => {
            &&& opt_view(out.derived_from) == Some(d)
            &&& out.modified_write_values is None
            &&& out.write_constraint is None
            &&& out.enumerated_values@.len() == 0
            &&& out.read_action == a.read_action
        },
        None => {
            &&& out.derived_from == a.derived_from
            &&& out.modified_write_values == if b.modified_write_values is Some { b.modified_write_values } else { a.modified_write_values }
            &&& out.write_constraint == if b.write_constraint is Some { b.write_constraint } else { a.write_constraint }
            &&& out.read_action == if b.read_action is Some { b.read_action } else { a.read_action }
            &&& out.enumerated_values == a.enumerated_values
        },
    }
    &&& out.dim == a.dim
}

fn opt_nonempty(o: &Option<String>) -> (r: Option<String>)
    requires
        o is Some,
    ensures
        opt_view(r) == empty_to_none(o.unwrap()@),
{
    match o {
        Some(s) => if s.as_str().unicode_len() == 0 {
            None
        } else {
            Some(s.clone())
        },
        None => None,
    }
}

impl Field {
    /// Changes this field as the patch `b` says (`FieldInfo::modify_from`);
    /// fails when the field that results is not valid.
    pub fn modify_from(&mut self, b: &FieldPatch) -> (r: Result<(), PatchError>)
        ensures
            field_patched(*old(self), b@, *final(self)),
            r is Ok <==> field_valid(*final(self)),
            r is Err ==> failed_with(r, PatchErrorKind::Invalid),
    {
        match &b.name {
            Some(n) => {
                self.name = n.clone();
            },
            None => {},
        }
        if b.description.is_some() {
            self.description = opt_nonempty(&b.description);
        }
        match b.bits {
            Bits::Range(o, w, t) => {
                self.bit_offset = o;
                self.bit_width = w;
                self.range_type = t;
            },
            Bits::Offset(o) => {
                self.bit_offset = o;
            },
            Bits::Width(w) => {
                self.bit_width = w;
            },
            Bits::Unset => {},
        }
        if b.access.is_some() {
            self.access = b.access;
        }
        match &b.derived_from {
            Some(d) => {
                self.derived_from = Some(d.clone());
                self.modified_write_values = None;
                self.write_constraint = None;
                self.enumerated_values = Vec::new();
            },
            None => {
                if b.modified_write_values.is_some() {
                    self.modified_write_values = b.modified_write_values;
                }
                if b.write_constraint.is_some() {
                    self.write_constraint = b.write_constraint;
                }
                if b.read_action.is_some() {
                    self.read_action = b.read_action;
                }
            },
        }
        if check_field(self) {
            Ok(())
        } else {
            Err(PatchError::Invalid(copy_str(self.name.as_str())))
        }
    }
}


/// The field that the patch `b` describes, named `name`: it must give the
/// bits as a range.
pub open spec fn field_built(b: FieldPatchV, name: Seq<char>, out: Field) -> bool {
    &&& b.bits matches Bits::Range(o, w, t) && out.bit_offset == o && out.bit_width == w && out.range_type == t
    &&& out.name@ == name
    &&& opt_view(out.description) == match b.description {
        Some(d) => empty_to_none(d),
        None => None,
    }
    &&& out.access == b.access
    &&& out.modified_write_values == b.modified_write_values
    &&& out.write_constraint == b.write_constraint
    &&& out.read_action == b.read_action
    &&& out.enumerated_values@.len() == 0
    &&& opt_view(out.derived_from) == b.derived_from
    &&& out.dim is None
}

/// Builds the field that a patch describes (`FieldInfoBuilder::build`): the
/// bits have to be given as a range, and the width may not be zero.
pub fn build_field(b: &FieldPatch, name: &str) -> (r: Result<Field, PatchError>)
    ensures
        match r {
            Ok(f) => field_built(b@, name@, f),
            Err(e) => e.kind() == PatchErrorKind::Invalid,
        },
        r is Ok <==> (b@.bits matches Bits::Range(_, w, _) && w != 0),
{
    let (o, w, t) = match b.bits {
        Bits::Range(o, w, t) => (o, w, t),
        _ => {
            return Err(PatchError::Invalid(copy_str(name)));
        },
    };
    if w == 0 {
        return Err(PatchError::Invalid(copy_str(name)));
    }
    Ok(
        Field {
            name: copy_str(name),
            description: match &b.description {
                Some(_) => opt_nonempty(&b.description),
                None => None,
            },
            bit_offset: o,
            bit_width: w,
            range_type: t,
            access: b.access,
            modified_write_values: b.modified_write_values,
            write_constraint: b.write_constraint,
            read_action: b.read_action,
            enumerated_values: Vec::new(),
            derived_from: match &b.derived_from {
                Some(d) => Some(d.clone()),
                None => None,
            },
            dim: None,
        },
    )
}

/// What `svd_rs::DimElement::parse_indexes` makes of `text`: the index
/// names of an array given as `first-last` or as a comma-separated list.
pub uninterp spec fn dim_indexes(text: Seq<char>) -> Option<Seq<Seq<char>>>;

/// Reads array indexes with `svd_rs::DimElement::parse_indexes`.
///
/// Trusted: the result is named by [`dim_indexes`]; nothing more is claimed.
#[verifier::external_body]
fn parse_indexes(text: &str) -> (r: Option<Vec<String>>)
    ensures
        match r {
            Some(v) => dim_indexes(text@) == Some(texts_of(v@)),
            None => dim_indexes(text@) is None,
        },
{
    svd_rs::DimElement::parse_indexes(text)
}

/// What a rule sets on the array description of an element.
pub struct DimPatch {
    pub dim: Option<u32>,
    pub dim_increment: Option<u32>,
    pub dim_index: Option<Vec<String>>,
    pub dim_name: Option<String>,
}

/// The content of a [`DimPatch`].
pub struct DimPatchV {
    pub dim: Option<u32>,
    pub dim_increment: Option<u32>,
    pub dim_index: Option<Seq<Seq<char>>>,
    pub dim_name: Option<Seq<char>>,
}

impl View for DimPatch {
    type V = DimPatchV;

    open spec fn view(&self) -> DimPatchV {
        DimPatchV {
            dim: self.dim,
            dim_increment: self.dim_increment,
            dim_index: match self.dim_index {
                Some(v) => Some(texts_of(v@)),
                None => None,
            },
            dim_name: opt_view(self.dim_name),
        }
    }
}

/// Every item of `a` is a string.
pub open spec fn all_str(a: Seq<YamlV>) -> bool {
    forall|i: int| 0 <= i < a.len() ==> is_str(#[trigger] a[i])
}

/// `v` is a string node.
pub open spec fn is_str(v: YamlV) -> bool {
    v is Str
}

/// The index names under `dimIndex`: a text that [`dim_indexes`] reads, or
/// a list of strings.
pub open spec fn dim_index_spec(h: Seq<(YamlV, YamlV)>) -> Result<Option<Seq<Seq<char>>>, ReadErr> {
    match entry(h, seq!['d', 'i', 'm', 'I', 'n', 'd', 'e', 'x']) {
        None => Ok(None),
        Some(YamlV::Str(t)) => match dim_indexes(t) {
            Some(v) => Ok(Some(v)),
            None => Err(ReadErr::Invalid),
        },
        Some(YamlV::Array(a)) => if all_str(a) {
            Ok(Some(a.map_values(|x: YamlV| x->Str_0)))
        } else {
            Err(ReadErr::Invalid)
        },
        Some(_) => Err(ReadErr::Invalid),
    }
}

/// The unsigned integer under `k`, taken modulo 2^32.
pub open spec fn u32_entry(h: Seq<(YamlV, YamlV)>, k: Seq<char>) -> Result<Option<u32>, ReadErr> {
    match int_entry(h, k) {
        Err(e) => Err(e),
        Ok(None) => Ok(None),
        Ok(Some(i)) => Ok(Some(i as u32)),
    }
}

/// What a rule sets on the array description: `None` when it sets nothing.
pub open spec fn dim_patch_spec(h: Seq<(YamlV, YamlV)>) -> Result<Option<DimPatchV>, ReadErr> {
    match dim_index_spec(h) {
        Err(e) => Err(e),
        Ok(ix) => match text_entry(h, seq!['d', 'i', 'm', 'N', 'a', 'm', 'e']) {
            Err(e) => Err(e),
            Ok(dn) => match u32_entry(h, seq!['d', 'i', 'm']) {
                Err(e) => Err(e),
                Ok(d) => match u32_entry(h, seq!['d', 'i', 'm', 'I', 'n', 'c', 'r', 'e', 'm', 'e', 'n', 't']) {
                    Err(e) => Err(e),
                    Ok(inc) => if ix is None && dn is None && d is None && inc is None {
                        Ok(None)
                    } else {
                        Ok(Some(DimPatchV { dim: d, dim_increment: inc, dim_index: ix, dim_name: dn }))
                    },
                },
            },
        },
    }
}

/// Reads what a rule sets on the array description (see [`dim_patch_spec`]).
pub fn make_dim_element(h: &YamlHash) -> (r: Result<Option<DimPatch>, PatchError>)
    ensures
        match dim_patch_spec(h.view_pairs()) {
            Ok(None) => r matches Ok(None),
            Ok(Some(v)) => r matches Ok(Some(d)) && d@ == v,
            Err(e) => failed_reading(r, e),
        },
{
    broadcast use group_yaml_views;
    proof {
        reveal_strlit("dimIndex");
        reveal_strlit("dimName");
        reveal_strlit("dim");
        reveal_strlit("dimIncrement");
        assert("dimIndex"@ =~= seq!['d', 'i', 'm', 'I', 'n', 'd', 'e', 'x']);
        assert("dimName"@ =~= seq!['d', 'i', 'm', 'N', 'a', 'm', 'e']);
        assert("dim"@ =~= seq!['d', 'i', 'm']);
        assert("dimIncrement"@ =~= seq!['d', 'i', 'm', 'I', 'n', 'c', 'r', 'e', 'm', 'e', 'n', 't']);
    }
    let ix: Option<Vec<String>> = match h.get_yaml("dimIndex") {
        None => None,
        Some(Yaml::String(t)) => match parse_indexes(t.as_str()) {
            Some(v) => Some(v),
            None => {
                return Err(PatchError::Invalid(copy_str(t.as_str())));
            },
        },
        Some(Yaml::Array(a)) => {
            proof {
                lemma_yv_seq(a@);
            }
            let ghost av = yv_seq(a@);
            assert(entry(h.view_pairs(), seq!['d', 'i', 'm', 'I', 'n', 'd', 'e', 'x']) == Some(YamlV::Array(av)));
            let mut out: Vec<String> = Vec::new();
            let mut i: usize = 0;
            while i < a.len()
                invariant
                    entry(h.view_pairs(), seq!['d', 'i', 'm', 'I', 'n', 'd', 'e', 'x']) == Some(YamlV::Array(av)),
                    av == yv_seq(a@),
                    av.len() == a@.len(),
                    forall|j: int| 0 <= j < a@.len() ==> av[j] == yv(a@[j]),
                    i <= a@.len(),
                    forall|j: int| 0 <= j < i ==> is_str(#[trigger] av[j]),
                    texts_of(out@) == av.take(i as int).map_values(|x: YamlV| x->Str_0),
                decreases a.len() - i,
            {
                match &a[i] {
                    Yaml::String(t) => {
                        let ghost before = out@;
                        out.push(t.clone());
                        assert(texts_of(out@) =~= texts_of(before).push(t@));
                        assert(av.take(i + 1).map_values(|x: YamlV| x->Str_0) =~= av.take(
                            i as int,
                        ).map_values(|x: YamlV| x->Str_0).push(t@));
                    },
                    _ => {
                        assert(!is_str(av[i as int]));
                        assert(!all_str(av));
                        return Err(PatchError::Invalid(String::new()));
                    },
                }
                i = i + 1;
            }
            assert(av.take(i as int) =~= av);
            Some(out)
        },
        Some(_) => {
            return Err(PatchError::Invalid(String::new()));
        },
    };
    let dn = match get_text(h, "dimName")? {
        Some(t) => Some(copy_str(t)),
        None => None,
    };
    let d = match get_int(h, "dim")? {
        Some(i) => Some(#[verifier::truncate] (i as u32)),
        None => None,
    };
    let inc = match get_int(h, "dimIncrement")? {
        Some(i) => Some(#[verifier::truncate] (i as u32)),
        None => None,
    };
    if ix.is_none() && dn.is_none() && d.is_none() && inc.is_none() {
        Ok(None)
    } else {
        Ok(Some(DimPatch { dim: d, dim_increment: inc, dim_index: ix, dim_name: dn }))
    }
}

/// An empty list of index names counts as none.
pub open spec fn empty_list_to_none(v: Seq<Seq<char>>) -> Option<Seq<Seq<char>>> {
    if v.len() == 0 {
        None
    } else {
        Some(v)
    }
}

/// The index names of an array description.
pub open spec fn dim_index_view(d: DimElement) -> Option<Seq<Seq<char>>> {
    match d.dim_index {
        Some(v) => Some(texts_of(v@)),
        None => None,
    }
}

/// `out` is the array description `old` (none for a plain element) changed
/// as `p` says: an array takes what `p` sets; a plain element becomes an
/// array, which needs both `dim` and `dimIncrement`.
pub open spec fn dim_patched(old: Option<DimElement>, p: DimPatchV, out: Option<DimElement>) -> bool {
    match old {
        Some(a) => out matches Some(b) && {
            &&& b.dim == if p.dim is Some { p.dim.unwrap() } else { a.dim }
            &&& b.dim_increment == if p.dim_increment is Some { p.dim_increment.unwrap() } else { a.dim_increment }
            &&& dim_index_view(b) == match p.dim_index {
                Some(v) => empty_list_to_none(v),
                None => dim_index_view(a),
            }
            &&& opt_view(b.dim_name) == match p.dim_name {
                Some(t) => empty_to_none(t),
                None => opt_view(a.dim_name),
            }
        },
        None => p.dim is Some && p.dim_increment is Some && (out matches Some(b) && {
            &&& b.dim == p.dim.unwrap()
            &&& b.dim_increment == p.dim_increment.unwrap()
            &&& dim_index_view(b) == match p.dim_index {
                Some(v) => empty_list_to_none(v),
                None => None,
            }
            &&& opt_view(b.dim_name) == match p.dim_name {
                Some(t) => empty_to_none(t),
                None => None,
            }
        }),
    }
}

fn copy_names(v: &Vec<String>) -> (r: Option<Vec<String>>)
    ensures
        match r {
            Some(x) => Some(texts_of(x@)) == empty_list_to_none(texts_of(v@)),
            None => empty_list_to_none(texts_of(v@)) is None,
        },
{
    if v.len() == 0 {
        return None;
    }
    let mut out: Vec<String> = Vec::new();
    let mut i: usize = 0;
    while i < v.len()
        invariant
            i <= v@.len(),
            texts_of(out@) == texts_of(v@).take(i as int),
        decreases v.len() - i,
    {
        let ghost before = out@;
        out.push(v[i].clone());
        assert(texts_of(out@) =~= texts_of(before).push(v@[i as int]@));
        assert(texts_of(v@).take(i + 1) =~= texts_of(v@).take(i as int).push(v@[i as int]@));
        i = i + 1;
    }
    assert(texts_of(v@).take(i as int) =~= texts_of(v@));
    Some(out)
}

/// Changes an array description as `p` says (see [`dim_patched`]); a plain
/// element without both `dim` and `dimIncrement` cannot become an array.
pub fn modify_dim(tag: &mut Option<DimElement>, p: &DimPatch) -> (r: Result<(), PatchError>)
    ensures
        r is Ok <==> ((*old(tag)) is Some || (p@.dim is Some && p@.dim_increment is Some)),
        r is Ok ==> dim_patched(*old(tag), p@, *final(tag)),
        r is Err ==> *final(tag) == *old(tag) && failed_with(r, PatchErrorKind::Invalid),
{
    let ix = match &p.dim_index {
        Some(v) => Some(copy_names(v)),
        None => None,
    };
    let dn = match &p.dim_name {
        Some(t) => Some(if t.as_str().unicode_len() == 0 {
            None
        } else {
            Some(t.clone())
        }),
        None => None,
    };
    match tag {
        Some(a) => {
            match p.dim {
                Some(d) => {
                    a.dim = d;
                },
                None => {},
            }
            match p.dim_increment {
                Some(d) => {
                    a.dim_increment = d;
                },
                None => {},
            }
            match ix {
                Some(v) => {
                    a.dim_index = v;
                },
                None => {},
            }
            match dn {
                Some(v) => {
                    a.dim_name = v;
                },
                None => {},
            }
            Ok(())
        },
        None => {
            match (p.dim, p.dim_increment) {
                (Some(d), Some(inc)) => {
                    *tag = Some(
                        DimElement {
                            dim: d,
                            dim_increment: inc,
                            dim_index: match ix {
                                Some(v) => v,
                                None => None,
                            },
                            dim_name: match dn {
                                Some(v) => v,
                                None => None,
                            },
                        },
                    );
                    Ok(())
                },
                _ => Err(PatchError::Invalid(String::new())),
            }
        },
    }
}

} // verus!
