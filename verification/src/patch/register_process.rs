//! Applying all the rules for one register.
use vstd::prelude::*;
use crate::model::{Field, ModifiedWriteValues, ReadAction, Register, Usage};
use crate::patch::builders::{BlockPath, RegisterPath, texts_of};
use crate::patch::error::{PatchError, PatchErrorKind, failed_with};
use crate::patch::field_edit::same_but_fields_ext;
use crate::patch::field_enum::field_enum_done;
use crate::patch::register::{range_done, fields_of, names_compile, selects, fields_fit, sum_width, merge_plan, opt_yv, MergePlan};
use crate::patch::yaml::{Yaml, YamlHash, YamlV, yv};
use crate::patch::yaml_ext::{entry, str_items, to_yaml};
use crate::patch::collect::start_from_zero;
use crate::patch::{Config, spec_parts};
use crate::text::{copy_str, str_eq};

verus! {

/// The total width of all fields of `fs`.
pub open spec fn total_width(fs: Seq<Field>) -> nat
    decreases fs.len(),
{
    if fs.len() == 0 {
        0
    } else {
        total_width(fs.drop_last()) + fs.last().bit_width as nat
    }
}

proof fn lemma_sum_le_total(fs: Seq<Field>, ns: Seq<Seq<char>>)
    ensures
        sum_width(fs, ns) <= total_width(fs),
    decreases fs.len(),
{
    if fs.len() > 0 {
        lemma_sum_le_total(fs.drop_last(), ns);
    }
}

/// Whether the widths of all fields add up to at most `u32::MAX`, and every
/// field ends below 2^32 (what merging and splitting need).
fn widths_fit(r: &Register) -> (ok: bool)
    ensures
        ok ==> total_width(fields_of(*r)) <= u32::MAX && fields_fit(fields_of(*r)),
{
    let v = match &r.fields {
        Some(v) => v,
        None => {
            assert(fields_of(*r) =~= Seq::<Field>::empty());
            return true;
        },
    };
    let mut total: u64 = 0;
    let mut i: usize = 0;
    while i < v.len()
        invariant
            i <= v@.len(),
            v@ == fields_of(*r),
            total == total_width(v@.take(i as int)),
            total <= u32::MAX,
            forall|k: int| 0 <= k < i ==> #[trigger] v@[k].bit_offset + v@[k].bit_width <= 0x1_0000_0000,
        decreases v.len() - i,
    {
        assert(v@.take(i + 1).drop_last() =~= v@.take(i as int));
        if (v[i].bit_offset as u64) + (v[i].bit_width as u64) > 0x1_0000_0000 {
            return false;
        }
        total = total + v[i].bit_width as u64;
        if total > 0xffff_ffff {
            return false;
        }
        i = i + 1;
    }
    assert(v@.take(i as int) =~= v@);
    true
}

impl Register {
    /// Work through a field, handling either an enum or a range
    pub fn process_field(&mut self, fspec: &str, fmod: &Yaml, config: &Config) -> (r: Result<(), PatchError>)
        ensures
            r is Ok ==> same_but_fields_ext(*old(self), *final(self)),
            (match fmod {
                Yaml::Hash(h) => !has_rw_key(h.view_pairs()),
                _ => false,
            }) ==> field_enum_done(
                *old(self),
                *final(self),
                fspec@,
                fmod->Hash_0.view_pairs(),
                None,
                config.enum_derive,
                r,
            ),
            !(fmod is Hash) && !(fmod is Array && fmod->Array_0@.len() == 2) ==> r is Ok && *final(self) == *old(self),
            (fmod is Array && fmod->Array_0@.len() == 2) ==> range_done(*old(self), *final(self), fspec@, fmod->Array_0@, r),
            fmod is Hash && r is Ok ==> forall|j: int|
                #[trigger] last_write_at(fmod->Hash_0.view_pairs(), j) && write_mwv(j) is Some ==> fields_write_as(
                    *final(self),
                    spec_parts(fspec@).0,
                    write_mwv(j)->Some_0,
                ),
            fmod is Hash && r is Ok ==> forall|j: int|
                #[trigger] only_read_at(fmod->Hash_0.view_pairs(), j) && read_act(j) is Some ==> fields_read_as(
                    *final(self),
                    spec_parts(fspec@).0,
                    read_act(j)->Some_0,
                ),
    {
        match fmod {
            Yaml::Hash(h) => {
                let ghost hv = h.view_pairs();
                let ghost sp = spec_parts(fspec@).0;
                let (is_read, is_write) = rw_keys(h);
                proof {
                    assert forall|j: int| #[trigger] last_write_at(hv, j) implies is_write by {
                        lemma_write_key_found(hv, j);
                    }
                    assert forall|j: int| #[trigger] only_read_at(hv, j) implies is_read && !is_write by {
                        lemma_read_key_found(hv, j);
                        lemma_no_write_key(hv);
                    }
                }
                if !is_read && !is_write {
                    return self.process_field_enum(fspec, h, None, config.enum_derive);
                }
                let ghost start = *self;
                let ghost mut rdone = false;
                if is_read {
                    let keys = read_keys();
                    let mut i: usize = 0;
                    while i < 5
                        invariant_except_break
                            !rdone,
                        invariant
                            keys@.len() == 5,
                            forall|j: int| 0 <= j < 5 ==> (#[trigger] keys@[j]).0@ == read_key(j) && keys@[j].1 == read_act(j),
                            *fmod == Yaml::Hash(*h),
                            hv == h.view_pairs(),
                            sp == spec_parts(fspec@).0,
                            has_rw_key(h.view_pairs()),
                            same_but_fields_ext(start, *self),
                            i <= 5,
                            !rdone ==> forall|j0: int| 0 <= j0 < i ==> entry(hv, #[trigger] read_key(j0)) is None,
                            rdone ==> forall|j: int|
                                #[trigger] only_read_at(hv, j) && read_act(j) is Some ==> fields_read_as(
                                    *self,
                                    sp,
                                    read_act(j)->Some_0,
                                ),
                        ensures
                            !rdone ==> i == 5,
                        decreases 5 - i,
                    {
                        let (key, action) = keys[i];
                        assert(key@ == read_key(i as int) && action == read_act(i as int));
                        match h.get_hash(key) {
                            Err(e) => {
                                return Err(PatchError::Yaml(e));
                            },
                            Ok(Some(sub)) => {
                                if sub.len() > 0 {
                                    self.process_field_enum(fspec, sub, Some(Usage::Read), config.enum_derive)?;
                                }
                                let ghost mid = *self;
                                match action {
                                    Some(a) => {
                                        self.set_field_read_action(fspec, a)?;
                                        proof {
                                            lemma_read_action_gives(mid, *self, sp, a);
                                        }
                                    },
                                    None => {},
                                }
                                proof {
                                    assert forall|j: int| #[trigger] only_read_at(hv, j) && read_act(j) is Some implies fields_read_as(
                                        *self,
                                        sp,
                                        read_act(j)->Some_0,
                                    ) by {
                                        if j < i {
                                            assert(entry(hv, read_key(j)) is None);
                                        } else if j > i {
                                            assert(entry(hv, read_key(i as int)) is None);
                                        }
                                    }
                                    rdone = true;
                                }
                                break;
                            },
                            Ok(None) => {},
                        }
                        i = i + 1;
                    }
                    proof {
                        if !rdone {
                            assert forall|j: int| #[trigger] only_read_at(hv, j) implies false by {
                                assert(entry(hv, read_key(j)) is None);
                            }
                        }
                    }
                }
                assert(!rdone ==> forall|j: int| !(#[trigger] only_read_at(hv, j)));
                let ghost after_read = *self;
                if is_write {
                    let keys = write_keys();
                    let mut i: usize = 0;
                    while i < 10
                        invariant
                            keys@.len() == 10,
                            forall|j: int| 0 <= j < 10 ==> (#[trigger] keys@[j]).0@ == write_key(j) && keys@[j].1 == write_mwv(j),
                            *fmod == Yaml::Hash(*h),
                            hv == h.view_pairs(),
                            sp == spec_parts(fspec@).0,
                            has_rw_key(h.view_pairs()),
                            same_but_fields_ext(start, *self),
                            forall|j: int|
                                0 <= j < i && #[trigger] last_write_at(hv, j) && write_mwv(j) is Some ==> fields_write_as(
                                    *self,
                                    sp,
                                    write_mwv(j)->Some_0,
                                ),
                        decreases 10 - i,
                    {
                        let (key, mwv) = keys[i];
                        assert(key@ == write_key(i as int) && mwv == write_mwv(i as int));
                        match h.get_hash(key) {
                            Err(e) => {
                                return Err(PatchError::Yaml(e));
                            },
                            Ok(Some(sub)) => {
                                if sub.len() > 0 {
                                    self.process_field_enum(fspec, sub, Some(Usage::Write), config.enum_derive)?;
                                }
                                let ghost mid = *self;
                                match mwv {
                                    Some(m) => {
                                        self.set_field_modified_write_values(fspec, m)?;
                                        proof {
                                            lemma_mwv_gives(mid, *self, sp, m);
                                        }
                                    },
                                    None => {},
                                }
                                proof {
                                    assert forall|j: int|
                                        0 <= j < i + 1 && #[trigger] last_write_at(hv, j) && write_mwv(j) is Some implies fields_write_as(
                                        *self,
                                        sp,
                                        write_mwv(j)->Some_0,
                                    ) by {
                                        if j < i {
                                            assert(entry(hv, write_key(i as int)) is None);
                                        }
                                    }
                                }
                            },
                            Ok(None) => {
                                proof {
                                    assert forall|j: int|
                                        0 <= j < i + 1 && #[trigger] last_write_at(hv, j) && write_mwv(j) is Some implies fields_write_as(
                                        *self,
                                        sp,
                                        write_mwv(j)->Some_0,
                                    ) by {
                                        if j == i {
                                            assert(entry(hv, write_key(i as int)) is None);
                                        }
                                    }
                                }
                            },
                        }
                        i = i + 1;
                    }
                }
                Ok(())
            },
            Yaml::Array(a) => {
                if a.len() == 2 {
                    self.process_field_range(fspec, a.as_slice())
                } else {
                    Ok(())
                }
            },
            _ => Ok(()),
        }
    }
}

/// The keys that ask for write values, in the order they are tried.
pub open spec fn write_key(j: int) -> Seq<char> {
    seq![
        seq!['_', 'w', 'r', 'i', 't', 'e'],
        seq!['_', 'W', 'M'],
        seq!['_', 'W', 'S'],
        seq!['_', 'W', 'C'],
        seq!['_', 'W', '1', 'S'],
        seq!['_', 'W', '0', 'C'],
        seq!['_', 'W', '1', 'C'],
        seq!['_', 'W', '0', 'S'],
        seq!['_', 'W', '1', 'T'],
        seq!['_', 'W', '0', 'T'],
    ][j]
}

/// The modified-write-values kind that write key `j` sets, if any.
pub open spec fn write_mwv(j: int) -> Option<ModifiedWriteValues> {
    seq![
        None,
        Some(ModifiedWriteValues::Modify),
        Some(ModifiedWriteValues::SetBits),
        Some(ModifiedWriteValues::Clear),
        Some(ModifiedWriteValues::OneToSet),
        Some(ModifiedWriteValues::ZeroToClear),
        Some(ModifiedWriteValues::OneToClear),
        Some(ModifiedWriteValues::ZeroToSet),
        Some(ModifiedWriteValues::OneToToggle),
        Some(ModifiedWriteValues::ZeroToToggle),
    ][j]
}

/// The keys that ask for read values, in the order they are tried.
pub open spec fn read_key(j: int) -> Seq<char> {
    seq![
        seq!['_', 'r', 'e', 'a', 'd'],
        seq!['_', 'R', 'M'],
        seq!['_', 'R', 'S'],
        seq!['_', 'R', 'C'],
        seq!['_', 'R', 'M', 'E'],
    ][j]
}

/// The read action that read key `j` sets, if any.
pub open spec fn read_act(j: int) -> Option<ReadAction> {
    seq![
        None,
        Some(ReadAction::Modify),
        Some(ReadAction::SetBits),
        Some(ReadAction::Clear),
        Some(ReadAction::ModifyExternal),
    ][j]
}

/// Each write key sets the write effects its name says: `_W1C` one to
/// clear, `_W0C` zero to clear, `_W1S` one to set, `_W0S` zero to set,
/// `_W1T` one to toggle, `_W0T` zero to toggle, `_WS` set, `_WC` clear,
/// `_WM` modify, and `_write` none; the keys are all different.
pub proof fn law_write_key_kinds()
    ensures
        forall|j: int|
            0 <= j < 10 ==> {
                let k = #[trigger] write_key(j);
                &&& k == seq!['_', 'W', '1', 'C'] ==> write_mwv(j) == Some(ModifiedWriteValues::OneToClear)
                &&& k == seq!['_', 'W', '0', 'C'] ==> write_mwv(j) == Some(ModifiedWriteValues::ZeroToClear)
                &&& k == seq!['_', 'W', '1', 'S'] ==> write_mwv(j) == Some(ModifiedWriteValues::OneToSet)
                &&& k == seq!['_', 'W', '0', 'S'] ==> write_mwv(j) == Some(ModifiedWriteValues::ZeroToSet)
                &&& k == seq!['_', 'W', '1', 'T'] ==> write_mwv(j) == Some(ModifiedWriteValues::OneToToggle)
                &&& k == seq!['_', 'W', '0', 'T'] ==> write_mwv(j) == Some(ModifiedWriteValues::ZeroToToggle)
                &&& k == seq!['_', 'W', 'S'] ==> write_mwv(j) == Some(ModifiedWriteValues::SetBits)
                &&& k == seq!['_', 'W', 'C'] ==> write_mwv(j) == Some(ModifiedWriteValues::Clear)
                &&& k == seq!['_', 'W', 'M'] ==> write_mwv(j) == Some(ModifiedWriteValues::Modify)
                &&& k == seq!['_', 'w', 'r', 'i', 't', 'e'] ==> write_mwv(j) is None
                &&& is_write_key(k)
            },
        forall|j1: int, j2: int| 0 <= j1 < j2 < 10 ==> #[trigger] write_key(j1) != #[trigger] write_key(j2),
{
    assert forall|j1: int, j2: int| 0 <= j1 < j2 < 10 implies #[trigger] write_key(j1) != #[trigger] write_key(j2) by {
        assert(write_key(j1).len() != write_key(j2).len() || write_key(j1)[1] != write_key(j2)[1] || write_key(j1)[2]
            != write_key(j2)[2] || write_key(j1)[3] != write_key(j2)[3]);
    }
}

/// Each read key sets the read action its name says: `_RM` modify, `_RS`
/// set, `_RC` clear, `_RME` modify-exclusive, and `_read` none; the keys are
/// all different.
pub proof fn law_read_key_kinds()
    ensures
        forall|j: int|
            0 <= j < 5 ==> {
                let k = #[trigger] read_key(j);
                &&& k == seq!['_', 'R', 'M'] ==> read_act(j) == Some(ReadAction::Modify)
                &&& k == seq!['_', 'R', 'S'] ==> read_act(j) == Some(ReadAction::SetBits)
                &&& k == seq!['_', 'R', 'C'] ==> read_act(j) == Some(ReadAction::Clear)
                &&& k == seq!['_', 'R', 'M', 'E'] ==> read_act(j) == Some(ReadAction::ModifyExternal)
                &&& k == seq!['_', 'r', 'e', 'a', 'd'] ==> read_act(j) is None
                &&& is_read_key(k)
            },
        forall|j1: int, j2: int| 0 <= j1 < j2 < 5 ==> #[trigger] read_key(j1) != #[trigger] read_key(j2),
{
    assert forall|j: int| 0 <= j < 5 implies ({
        let k = #[trigger] read_key(j);
        &&& k == seq!['_', 'R', 'M'] ==> read_act(j) == Some(ReadAction::Modify)
        &&& k == seq!['_', 'R', 'S'] ==> read_act(j) == Some(ReadAction::SetBits)
        &&& k == seq!['_', 'R', 'C'] ==> read_act(j) == Some(ReadAction::Clear)
        &&& k == seq!['_', 'R', 'M', 'E'] ==> read_act(j) == Some(ReadAction::ModifyExternal)
        &&& k == seq!['_', 'r', 'e', 'a', 'd'] ==> read_act(j) is None
        &&& is_read_key(k)
    }) by {
        if j == 0 {
        } else if j == 1 {
            assert(read_key(1).len() != seq!['_', 'R', 'M', 'E'].len());
        } else if j == 2 {
        } else if j == 3 {
        } else {
            assert(read_key(4).len() != seq!['_', 'R', 'M'].len());
        }
    }
    assert forall|j1: int, j2: int| 0 <= j1 < j2 < 5 implies #[trigger] read_key(j1) != #[trigger] read_key(j2) by {
        assert(read_key(j1).len() != read_key(j2).len() || read_key(j1)[1] != read_key(j2)[1] || read_key(j1)[2]
            != read_key(j2)[2]);
    }
}

/// Write key `j` holds a mapping in `h`, and no write key tried after it is
/// there.
pub open spec fn last_write_at(h: Seq<(YamlV, YamlV)>, j: int) -> bool {
    &&& 0 <= j < 10
    &&& entry(h, write_key(j)) matches Some(YamlV::Hash(_))
    &&& forall|j2: int| j < j2 < 10 ==> entry(h, #[trigger] write_key(j2)) is None
}

/// Read key `j` holds a mapping in `h`, no read key tried before it is there,
/// and there is no write key.
pub open spec fn only_read_at(h: Seq<(YamlV, YamlV)>, j: int) -> bool {
    &&& 0 <= j < 5
    &&& entry(h, read_key(j)) matches Some(YamlV::Hash(_))
    &&& forall|j2: int| 0 <= j2 < j ==> entry(h, #[trigger] read_key(j2)) is None
    &&& forall|j2: int| 0 <= j2 < 10 ==> entry(h, #[trigger] write_key(j2)) is None
}

/// Every field of `r` that `spec` selects has write effects `m`.
pub open spec fn fields_write_as(r: Register, spec: Seq<char>, m: ModifiedWriteValues) -> bool {
    forall|q: int|
        0 <= q < fields_of(r).len() && selects(spec, #[trigger] fields_of(r)[q]) ==> fields_of(r)[q].modified_write_values
            == crate::patch::register::mwv_value(m)
}

/// Every field of `r` that `spec` selects has read action `a`.
pub open spec fn fields_read_as(r: Register, spec: Seq<char>, a: ReadAction) -> bool {
    forall|q: int|
        0 <= q < fields_of(r).len() && selects(spec, #[trigger] fields_of(r)[q]) ==> fields_of(r)[q].read_action == Some(
            a,
        )
}

/// After setting read action `a` on the fields that `spec` selects, those
/// fields have read action `a`.
proof fn lemma_read_action_gives(a: Register, b: Register, spec: Seq<char>, act: ReadAction)
    requires
        fields_of(b).len() == fields_of(a).len(),
        forall|i: int|
            0 <= i < fields_of(a).len() ==> crate::patch::register::read_action_set(
                spec,
                act,
                #[trigger] fields_of(a)[i],
                fields_of(b)[i],
            ),
    ensures
        fields_read_as(b, spec, act),
{
    assert forall|q: int| 0 <= q < fields_of(b).len() && selects(spec, #[trigger] fields_of(b)[q]) implies fields_of(b)[q].read_action
        == Some(act) by {
        assert(crate::patch::register::read_action_set(spec, act, fields_of(a)[q], fields_of(b)[q]));
    }
}

/// After setting write effects `m` on the fields that `spec` selects, those
/// fields have them.
proof fn lemma_mwv_gives(a: Register, b: Register, spec: Seq<char>, m: ModifiedWriteValues)
    requires
        fields_of(b).len() == fields_of(a).len(),
        forall|i: int|
            0 <= i < fields_of(a).len() ==> crate::patch::register::mwv_set(
                spec,
                m,
                #[trigger] fields_of(a)[i],
                fields_of(b)[i],
            ),
    ensures
        fields_write_as(b, spec, m),
{
    assert forall|q: int| 0 <= q < fields_of(b).len() && selects(spec, #[trigger] fields_of(b)[q]) implies fields_of(b)[q].modified_write_values
        == crate::patch::register::mwv_value(m) by {
        assert(crate::patch::register::mwv_set(spec, m, fields_of(a)[q], fields_of(b)[q]));
    }
}

/// Entry `i` of `h` has a write key.
pub open spec fn write_at(h: Seq<(YamlV, YamlV)>, i: int) -> bool {
    match h[i].0 {
        YamlV::Str(k) => is_write_key(k),
        _ => false,
    }
}

/// Entry `i` of `h` has a read key.
pub open spec fn read_at(h: Seq<(YamlV, YamlV)>, i: int) -> bool {
    match h[i].0 {
        YamlV::Str(k) => is_read_key(k),
        _ => false,
    }
}

/// A key found in a mapping is the key of one of its entries.
proof fn lemma_entry_found(h: Seq<(YamlV, YamlV)>, k: Seq<char>)
    ensures
        entry(h, k) is Some ==> exists|i: int| 0 <= i < h.len() && #[trigger] h[i].0 == YamlV::Str(k),
    decreases h.len(),
{
    if h.len() > 0 {
        lemma_entry_found(h.drop_last(), k);
        if entry(h.drop_last(), k) is Some {
            let i = choose|i: int| 0 <= i < h.drop_last().len() && #[trigger] h.drop_last()[i].0 == YamlV::Str(k);
            assert(h[i].0 == YamlV::Str(k));
        } else if entry(h, k) is Some {
            assert(h[h.len() - 1].0 == YamlV::Str(k));
        }
    }
}

/// A mapping with write key `j` has an entry with a write key.
proof fn lemma_write_key_found(h: Seq<(YamlV, YamlV)>, j: int)
    requires
        0 <= j < 10,
        entry(h, write_key(j)) is Some,
    ensures
        exists|i: int| 0 <= i < h.len() && #[trigger] write_at(h, i),
{
    lemma_entry_found(h, write_key(j));
    let i = choose|i: int| 0 <= i < h.len() && #[trigger] h[i].0 == YamlV::Str(write_key(j));
    assert(is_write_key(write_key(j)));
    assert(write_at(h, i));
}

/// A mapping with read key `j` has an entry with a read key.
proof fn lemma_read_key_found(h: Seq<(YamlV, YamlV)>, j: int)
    requires
        0 <= j < 5,
        entry(h, read_key(j)) is Some,
    ensures
        exists|i: int| 0 <= i < h.len() && #[trigger] read_at(h, i),
{
    lemma_entry_found(h, read_key(j));
    let i = choose|i: int| 0 <= i < h.len() && #[trigger] h[i].0 == YamlV::Str(read_key(j));
    assert(is_read_key(read_key(j)));
    assert(read_at(h, i));
}

/// No entry has a write key when no write key is there.
proof fn lemma_no_write_key(h: Seq<(YamlV, YamlV)>)
    requires
        forall|j2: int| 0 <= j2 < 10 ==> entry(h, #[trigger] write_key(j2)) is None,
    ensures
        !(exists|i: int| 0 <= i < h.len() && #[trigger] write_at(h, i)),
{
    if exists|i: int| 0 <= i < h.len() && #[trigger] write_at(h, i) {
        let i = choose|i: int| 0 <= i < h.len() && #[trigger] write_at(h, i);
        let k = h[i].0->Str_0;
        assert(is_write_key(k));
        let j = if k == write_key(0) { 0 } else if k == write_key(1) { 1 } else if k == write_key(2) { 2 } else if k
            == write_key(3) { 3 } else if k == write_key(4) { 4 } else if k == write_key(5) { 5 } else if k == write_key(6) {
            6
        } else if k == write_key(7) { 7 } else if k == write_key(8) { 8 } else { 9 };
        assert(k == write_key(j));
        lemma_entry_present(h, i);
        assert(entry(h, write_key(j)) is Some);
    }
}

/// A key of one of the entries is found.
proof fn lemma_entry_present(h: Seq<(YamlV, YamlV)>, i: int)
    requires
        0 <= i < h.len(),
        h[i].0 is Str,
    ensures
        entry(h, h[i].0->Str_0) is Some,
    decreases h.len(),
{
    if i < h.len() - 1 {
        assert(h.drop_last()[i] == h[i]);
        lemma_entry_present(h.drop_last(), i);
    }
}

/// The keys that ask for read values, with the read action each sets.
fn read_keys() -> (r: Vec<(&'static str, Option<ReadAction>)>)
    ensures
        r@.len() == 5,
        forall|j: int| 0 <= j < 5 ==> (#[trigger] r@[j]).0@ == read_key(j) && r@[j].1 == read_act(j),
{
    proof {
        reveal_strlit("_read");
        reveal_strlit("_RM");
        reveal_strlit("_RS");
        reveal_strlit("_RC");
        reveal_strlit("_RME");
    }
    vec![
        ("_read", None),
        ("_RM", Some(ReadAction::Modify)),
        ("_RS", Some(ReadAction::SetBits)),
        ("_RC", Some(ReadAction::Clear)),
        ("_RME", Some(ReadAction::ModifyExternal)),
    ]
}

/// The keys that ask for write values, with the modified-write-values kind
/// each sets.
fn write_keys() -> (r: Vec<(&'static str, Option<ModifiedWriteValues>)>)
    ensures
        r@.len() == 10,
        forall|j: int| 0 <= j < 10 ==> (#[trigger] r@[j]).0@ == write_key(j) && r@[j].1 == write_mwv(j),
{
    proof {
        reveal_strlit("_write");
        reveal_strlit("_WM");
        reveal_strlit("_WS");
        reveal_strlit("_WC");
        reveal_strlit("_W1S");
        reveal_strlit("_W0C");
        reveal_strlit("_W1C");
        reveal_strlit("_W0S");
        reveal_strlit("_W1T");
        reveal_strlit("_W0T");
    }
    vec![
        ("_write", None),
        ("_WM", Some(ModifiedWriteValues::Modify)),
        ("_WS", Some(ModifiedWriteValues::SetBits)),
        ("_WC", Some(ModifiedWriteValues::Clear)),
        ("_W1S", Some(ModifiedWriteValues::OneToSet)),
        ("_W0C", Some(ModifiedWriteValues::ZeroToClear)),
        ("_W1C", Some(ModifiedWriteValues::OneToClear)),
        ("_W0S", Some(ModifiedWriteValues::ZeroToSet)),
        ("_W1T", Some(ModifiedWriteValues::OneToToggle)),
        ("_W0T", Some(ModifiedWriteValues::ZeroToToggle)),
    ]
}

/// A key that asks for read values.
pub open spec fn is_read_key(k: Seq<char>) -> bool {
    k == seq!['_', 'r', 'e', 'a', 'd'] || k == seq!['_', 'R', 'M'] || k == seq!['_', 'R', 'S']
        || k == seq!['_', 'R', 'C'] || k == seq!['_', 'R', 'M', 'E']
}

/// A key that asks for write values.
pub open spec fn is_write_key(k: Seq<char>) -> bool {
    k == seq!['_', 'w', 'r', 'i', 't', 'e'] || k == seq!['_', 'W', 'M'] || k == seq!['_', 'W', 'S']
        || k == seq!['_', 'W', 'C'] || k == seq!['_', 'W', '1', 'S'] || k == seq!['_', 'W', '0', 'C']
        || k == seq!['_', 'W', '1', 'C'] || k == seq!['_', 'W', '0', 'S'] || k == seq!['_', 'W', '1', 'T']
        || k == seq!['_', 'W', '0', 'T']
}

/// Whether the rule names a read or write key.
pub open spec fn has_rw_key(h: Seq<(YamlV, YamlV)>) -> bool {
    exists|i: int| 0 <= i < h.len() && #[trigger] rw_at(h, i)
}

/// Whether the key of entry `i` of `h` is a read or write key.
pub open spec fn rw_at(h: Seq<(YamlV, YamlV)>, i: int) -> bool {
    match h[i].0 {
        YamlV::Str(k) => is_read_key(k) || is_write_key(k),
        _ => false,
    }
}

/// Whether the rule names a read key, and whether it names a write key.
fn rw_keys(h: &YamlHash) -> (r: (bool, bool))
    ensures
        !r.0 && !r.1 <==> !has_rw_key(h.view_pairs()),
        r.0 <==> exists|i: int| 0 <= i < h.view_pairs().len() && #[trigger] read_at(h.view_pairs(), i),
        r.1 <==> exists|i: int| 0 <= i < h.view_pairs().len() && #[trigger] write_at(h.view_pairs(), i),
{
    broadcast use crate::patch::yaml::group_yaml_views;
    let mut is_read = false;
    let mut is_write = false;
    let mut i: usize = 0;
    while i < h.entries.len()
        invariant
            i <= h.entries@.len(),
            h.view_pairs().len() == h.entries@.len(),
            forall|j: int| 0 <= j < h.entries@.len() ==> #[trigger] h.view_pairs()[j] == (yv(h.entries@[j].0), yv(h.entries@[j].1)),
            !is_read && !is_write <==> !(exists|j: int| 0 <= j < i && #[trigger] rw_at(h.view_pairs(), j)),
            is_read <==> exists|j: int| 0 <= j < i && #[trigger] read_at(h.view_pairs(), j),
            is_write <==> exists|j: int| 0 <= j < i && #[trigger] write_at(h.view_pairs(), j),
        decreases h.entries.len() - i,
    {
        assert(h.view_pairs()[i as int] == (yv(h.entries@[i as int].0), yv(h.entries@[i as int].1)));
        match &h.entries[i].0 {
            Yaml::String(k) => {
                let (a, b) = key_kind(k.as_str());
                assert(rw_at(h.view_pairs(), i as int) == (a || b));
                assert(read_at(h.view_pairs(), i as int) == a);
                assert(write_at(h.view_pairs(), i as int) == b);
                if a {
                    is_read = true;
                }
                if b {
                    is_write = true;
                }
            },
            _ => {
                assert(!rw_at(h.view_pairs(), i as int));
                assert(!read_at(h.view_pairs(), i as int));
                assert(!write_at(h.view_pairs(), i as int));
            },
        }
        i = i + 1;
    }
    (is_read, is_write)
}


/// Whether `t` is a read key, and whether it is a write key.
fn key_kind(t: &str) -> (r: (bool, bool))
    ensures
        r.0 == is_read_key(t@),
        r.1 == is_write_key(t@),
{
    proof {
        reveal_strlit("_read");
        reveal_strlit("_RM");
        reveal_strlit("_RS");
        reveal_strlit("_RC");
        reveal_strlit("_RME");
        reveal_strlit("_write");
        reveal_strlit("_WM");
        reveal_strlit("_WS");
        reveal_strlit("_WC");
        reveal_strlit("_W1S");
        reveal_strlit("_W0C");
        reveal_strlit("_W1C");
        reveal_strlit("_W0S");
        reveal_strlit("_W1T");
        reveal_strlit("_W0T");
        assert("_read"@ =~= seq!['_', 'r', 'e', 'a', 'd']);
        assert("_RM"@ =~= seq!['_', 'R', 'M']);
        assert("_RS"@ =~= seq!['_', 'R', 'S']);
        assert("_RC"@ =~= seq!['_', 'R', 'C']);
        assert("_RME"@ =~= seq!['_', 'R', 'M', 'E']);
        assert("_write"@ =~= seq!['_', 'w', 'r', 'i', 't', 'e']);
        assert("_WM"@ =~= seq!['_', 'W', 'M']);
        assert("_WS"@ =~= seq!['_', 'W', 'S']);
        assert("_WC"@ =~= seq!['_', 'W', 'C']);
        assert("_W1S"@ =~= seq!['_', 'W', '1', 'S']);
        assert("_W0C"@ =~= seq!['_', 'W', '0', 'C']);
        assert("_W1C"@ =~= seq!['_', 'W', '1', 'C']);
        assert("_W0S"@ =~= seq!['_', 'W', '0', 'S']);
        assert("_W1T"@ =~= seq!['_', 'W', '1', 'T']);
        assert("_W0T"@ =~= seq!['_', 'W', '0', 'T']);
    }
    let r = str_eq(t, "_read") || str_eq(t, "_RM") || str_eq(t, "_RS") || str_eq(t, "_RC") || str_eq(t, "_RME");
    let w = str_eq(t, "_write") || str_eq(t, "_WM") || str_eq(t, "_WS") || str_eq(t, "_WC") || str_eq(t, "_W1S")
        || str_eq(t, "_W0C") || str_eq(t, "_W1C") || str_eq(t, "_W0S") || str_eq(t, "_W1T") || str_eq(t, "_W0T");
    (r, w)
}


/// The keys of a register rule that are commands, not field names.
fn is_register_keyword(k: &str) -> (r: bool) {
    str_eq(k, "_include") || str_eq(k, "_path") || str_eq(k, "_delete") || str_eq(k, "_derive")
        || str_eq(k, "_strip") || str_eq(k, "_strip_end") || str_eq(k, "_prefix") || str_eq(k, "_suffix")
        || str_eq(k, "_clear") || str_eq(k, "_modify") || str_eq(k, "_add") || str_eq(k, "_merge")
        || str_eq(k, "_split") || str_eq(k, "_array")
}

/// A copy of a block path.
pub fn copy_block(b: &BlockPath) -> (r: BlockPath)
    ensures
        r.peripheral@ == b.peripheral@,
        texts_of(r.path@) == texts_of(b.path@),
{
    let mut path: Vec<String> = Vec::new();
    let mut i: usize = 0;
    while i < b.path.len()
        invariant
            i <= b.path@.len(),
            texts_of(path@) == texts_of(b.path@).take(i as int),
        decreases b.path.len() - i,
    {
        let ghost before = path@;
        path.push(b.path[i].clone());
        assert(texts_of(path@) =~= texts_of(before).push(b.path@[i as int]@));
        assert(texts_of(b.path@).take(i + 1) =~= texts_of(b.path@).take(i as int).push(b.path@[i as int]@));
        i = i + 1;
    }
    assert(texts_of(b.path@).take(i as int) =~= texts_of(b.path@));
    BlockPath { peripheral: b.peripheral.clone(), path }
}

fn yaml_err<T>(r: Result<T, crate::patch::yaml_ext::YamlError>) -> (o: Result<T, PatchError>)
    ensures
        match r {
            Ok(x) => o == Ok::<T, PatchError>(x),
            Err(_) => o is Err,
        },
{
    match r {
        Ok(x) => Ok(x),
        Err(e) => Err(PatchError::Yaml(e)),
    }
}

/// An entry of register rules that changes nothing: its key is a text that
/// names no rule (it does not start with `_`, or it is `_start_from_zero`)
/// and its value is no mapping and no list of two items.
pub open spec fn plain_entry(e: (YamlV, YamlV)) -> bool {
    &&& e.0 matches YamlV::Str(k) && (k.len() == 0 || k[0] != '_' || k == start_from_zero())
    &&& !(e.1 is Hash)
    &&& !(e.1 matches YamlV::Array(a) && a.len() == 2)
}

/// Register rules that change nothing (see [`plain_entry`]), such as those
/// of an `_array` rule that only names the array.
pub open spec fn plain_register_rules(h: Seq<(YamlV, YamlV)>) -> bool {
    forall|i: int| 0 <= i < h.len() ==> #[trigger] plain_entry(h[i])
}

/// Plain rules hold no rule key.
proof fn lemma_plain_absent(h: Seq<(YamlV, YamlV)>, k: Seq<char>)
    requires
        plain_register_rules(h),
        k.len() > 0,
        k[0] == '_',
        k != start_from_zero(),
    ensures
        entry(h, k) is None,
    decreases h.len(),
{
    if h.len() > 0 {
        assert forall|i: int| 0 <= i < h.drop_last().len() implies #[trigger] plain_entry(h.drop_last()[i]) by {
            assert(h.drop_last()[i] == h[i]);
            assert(plain_entry(h[i]));
        }
        lemma_plain_absent(h.drop_last(), k);
        assert(plain_entry(h[h.len() - 1]));
        assert(h.last().0 != YamlV::Str(k));
    }
}

/// The register's `_delete` rule, one field specification after another:
/// whether all of them went through, and the fields left (after a failure,
/// those left by the deletions before it).
pub open spec fn field_deletes(fs: Seq<Field>, specs: Seq<Seq<char>>) -> (bool, Seq<Field>)
    decreases specs.len(),
{
    if specs.len() == 0 {
        (true, fs)
    } else {
        let (ok, q) = field_deletes(fs, specs.drop_last());
        if !ok {
            (false, q)
        } else if !names_compile(q, specs.last()) {
            (false, q)
        } else {
            (true, q.filter(|f: Field| !selects(specs.last(), f)))
        }
    }
}

/// Once a deletion has failed, the later ones change nothing.
proof fn lemma_field_deletes_stuck(fs: Seq<Field>, specs: Seq<Seq<char>>, j: int)
    requires
        0 <= j <= specs.len(),
        !field_deletes(fs, specs.take(j)).0,
    ensures
        field_deletes(fs, specs) == field_deletes(fs, specs.take(j)),
    decreases specs.len(),
{
    if j < specs.len() {
        assert(specs.drop_last().take(j) =~= specs.take(j));
        lemma_field_deletes_stuck(fs, specs.drop_last(), j);
    } else {
        assert(specs.take(j) =~= specs);
    }
}

/// The field specifications that the register rules' `_delete` lists.
pub open spec fn listed_deletes(rmod: Seq<(YamlV, YamlV)>) -> Seq<Seq<char>> {
    match entry(rmod, seq!['_', 'd', 'e', 'l', 'e', 't', 'e']) {
        Some(v) => str_items(v),
        None => Seq::empty(),
    }
}

impl Register {
    /// Work through a register, handling all fields
    #[verifier::loop_isolation(false)]
    #[verifier::rlimit(100)]
    pub fn process(&mut self, rmod: &YamlHash, bpath: &BlockPath, config: &Config) -> (r: Result<(), PatchError>)
        ensures
            old(self).derived_from is Some ==> r is Ok && *final(self) == *old(self),
            r is Ok ==> same_but_fields_ext(*old(self), *final(self)),
            old(self).derived_from is None ==> ({
                let o = field_deletes(fields_of(*old(self)), listed_deletes(rmod.view_pairs()));
                &&& r is Ok ==> o.0
                &&& !o.0 ==> r is Err && same_but_fields_ext(*old(self), *final(self)) && fields_of(*final(self))
                    == o.1
            }),
            plain_register_rules(rmod.view_pairs()) ==> r is Ok && *final(self) == *old(self),
    {
        if self.derived_from.is_some() {
            return Ok(());
        }
        proof {
            reveal_strlit("_delete");
            assert("_delete"@ =~= seq!['_', 'd', 'e', 'l', 'e', 't', 'e']);
        }
        let ghost plain = plain_register_rules(rmod.view_pairs());
        proof {
            if plain {
                reveal_strlit("_delete");
                assert("_delete"@ != start_from_zero());
                lemma_plain_absent(rmod.view_pairs(), "_delete"@);
                reveal_strlit("_strip");
                assert("_strip"@ != start_from_zero());
                lemma_plain_absent(rmod.view_pairs(), "_strip"@);
                reveal_strlit("_strip_end");
                assert("_strip_end"@ != start_from_zero());
                lemma_plain_absent(rmod.view_pairs(), "_strip_end"@);
                reveal_strlit("_prefix");
                assert("_prefix"@ != start_from_zero());
                lemma_plain_absent(rmod.view_pairs(), "_prefix"@);
                reveal_strlit("_suffix");
                assert("_suffix"@ != start_from_zero());
                lemma_plain_absent(rmod.view_pairs(), "_suffix"@);
                reveal_strlit("_clear");
                assert("_clear"@ != start_from_zero());
                lemma_plain_absent(rmod.view_pairs(), "_clear"@);
                reveal_strlit("_modify");
                assert("_modify"@ != start_from_zero());
                lemma_plain_absent(rmod.view_pairs(), "_modify"@);
                reveal_strlit("_add");
                assert("_add"@ != start_from_zero());
                lemma_plain_absent(rmod.view_pairs(), "_add"@);
                reveal_strlit("_derive");
                assert("_derive"@ != start_from_zero());
                lemma_plain_absent(rmod.view_pairs(), "_derive"@);
                reveal_strlit("_merge");
                assert("_merge"@ != start_from_zero());
                lemma_plain_absent(rmod.view_pairs(), "_merge"@);
                reveal_strlit("_split");
                assert("_split"@ != start_from_zero());
                lemma_plain_absent(rmod.view_pairs(), "_split"@);
                reveal_strlit("_array");
                assert("_array"@ != start_from_zero());
                lemma_plain_absent(rmod.view_pairs(), "_array"@);
            }
        }
        let ghost start = *self;
        let rpath = RegisterPath { block: copy_block(bpath), name: self.name.clone() };

        // Handle deletions
        let dels = rmod.str_vec_iter("_delete");
        let ghost ds = texts_of(dels@);
        assert(ds == listed_deletes(rmod.view_pairs()));
        assert(ds.take(0) =~= Seq::<Seq<char>>::empty());
        let mut i: usize = 0;
        while i < dels.len()
            invariant
                same_but_fields_ext(start, *self),
                plain ==> *self == start,
                i <= dels@.len(),
                field_deletes(fields_of(start), ds.take(i as int)) == (true, fields_of(*self)),
            decreases dels.len() - i,
        {
            assert(ds.take(i + 1).drop_last() =~= ds.take(i as int));
            assert(ds.take(i + 1).last() == dels@[i as int]@);
            match self.delete_field(dels[i].as_str()) {
                Ok(()) => {},
                Err(e) => {
                    proof {
                        lemma_field_deletes_stuck(fields_of(start), ds, i + 1);
                    }
                    return Err(e);
                },
            }
            i = i + 1;
        }
        assert(ds.take(i as int) =~= ds);
        assert(field_deletes(fields_of(start), ds).0);

        // Handle strips
        let strips = rmod.str_vec_iter("_strip");
        let mut i: usize = 0;
        while i < strips.len()
            invariant
                same_but_fields_ext(start, *self),
                plain ==> *self == start,
            decreases strips.len() - i,
        {
            self.strip_start(strips[i].as_str())?;
            i = i + 1;
        }
        let strips = rmod.str_vec_iter("_strip_end");
        let mut i: usize = 0;
        while i < strips.len()
            invariant
                same_but_fields_ext(start, *self),
                plain ==> *self == start,
            decreases strips.len() - i,
        {
            self.strip_end(strips[i].as_str())?;
            i = i + 1;
        }
        match yaml_err(rmod.get_str("_prefix"))? {
            Some(p) => self.add_prefix(p),
            None => {},
        }
        match yaml_err(rmod.get_str("_suffix"))? {
            Some(p) => self.add_suffix(p),
            None => {},
        }

        // Handle field clearing
        let clears = rmod.str_vec_iter("_clear");
        let mut i: usize = 0;
        while i < clears.len()
            invariant
                same_but_fields_ext(start, *self),
                plain ==> *self == start,
            decreases clears.len() - i,
        {
            self.clear_field(clears[i].as_str())?;
            i = i + 1;
        }

        // Handle modifications
        match rmod.hash_iter("_modify") {
            Some(h) => {
                let mut i: usize = 0;
                while i < h.entries.len()
                    invariant
                        same_but_fields_ext(start, *self),
                    plain ==> *self == start,
                        plain ==> *self == start,
                plain ==> *self == start,
                    decreases h.entries.len() - i,
                {
                    let fspec = yaml_err(h.entries[i].0.str())?;
                    let fmod = yaml_err(h.entries[i].1.hash())?;
                    self.modify_field(fspec, fmod, &rpath)?;
                    i = i + 1;
                }
            },
            None => {},
        }
        // Handle additions
        match rmod.hash_iter("_add") {
            Some(h) => {
                let mut i: usize = 0;
                while i < h.entries.len()
                    invariant
                        same_but_fields_ext(start, *self),
                    plain ==> *self == start,
                        plain ==> *self == start,
                plain ==> *self == start,
                    decreases h.entries.len() - i,
                {
                    let fname = yaml_err(h.entries[i].0.str())?;
                    let fadd = yaml_err(h.entries[i].1.hash())?;
                    self.add_field(fname, fadd, &rpath)?;
                    i = i + 1;
                }
            },
            None => {},
        }
        // Handle derives
        match rmod.hash_iter("_derive") {
            Some(h) => {
                let mut i: usize = 0;
                while i < h.entries.len()
                    invariant
                        same_but_fields_ext(start, *self),
                    plain ==> *self == start,
                        plain ==> *self == start,
                plain ==> *self == start,
                    decreases h.entries.len() - i,
                {
                    let fspec = yaml_err(h.entries[i].0.str())?;
                    self.derive_field(fspec, &h.entries[i].1, &rpath)?;
                    i = i + 1;
                }
            },
            None => {},
        }

        // Handle merges
        match rmod.get_yaml("_merge") {
            Some(Yaml::Hash(h)) => {
                let mut i: usize = 0;
                while i < h.entries.len()
                    invariant
                        same_but_fields_ext(start, *self),
                    plain ==> *self == start,
                        plain ==> *self == start,
                plain ==> *self == start,
                    decreases h.entries.len() - i,
                {
                    let fspec = yaml_err(h.entries[i].0.str())?;
                    self.merge_checked(fspec, Some(&h.entries[i].1))?;
                    i = i + 1;
                }
            },
            Some(Yaml::Array(a)) => {
                let mut i: usize = 0;
                while i < a.len()
                    invariant
                        same_but_fields_ext(start, *self),
                    plain ==> *self == start,
                        plain ==> *self == start,
                plain ==> *self == start,
                    decreases a.len() - i,
                {
                    let fspec = yaml_err(a[i].str())?;
                    self.merge_checked(fspec, None)?;
                    i = i + 1;
                }
            },
            Some(Yaml::String(fspec)) => {
                self.merge_checked(fspec.as_str(), None)?;
            },
            _ => {},
        }

        // Handle splits
        let empty = YamlHash::new();
        match rmod.get_yaml("_split") {
            Some(Yaml::Hash(h)) => {
                let mut i: usize = 0;
                while i < h.entries.len()
                    invariant
                        same_but_fields_ext(start, *self),
                    plain ==> *self == start,
                        plain ==> *self == start,
                plain ==> *self == start,
                    decreases h.entries.len() - i,
                {
                    let fspec = yaml_err(h.entries[i].0.str())?;
                    let fsplit = yaml_err(h.entries[i].1.hash())?;
                    self.split_checked(fspec, fsplit)?;
                    i = i + 1;
                }
            },
            Some(Yaml::Array(a)) => {
                let mut i: usize = 0;
                while i < a.len()
                    invariant
                        same_but_fields_ext(start, *self),
                    plain ==> *self == start,
                        plain ==> *self == start,
                plain ==> *self == start,
                    decreases a.len() - i,
                {
                    let fspec = yaml_err(a[i].str())?;
                    self.split_checked(fspec, &empty)?;
                    i = i + 1;
                }
            },
            Some(Yaml::String(fspec)) => {
                self.split_checked(fspec.as_str(), &empty)?;
            },
            _ => {},
        }

        // Handle fields
        if config.update_fields {
            let mut i: usize = 0;
            while i < rmod.entries.len()
                invariant
                    same_but_fields_ext(start, *self),
                    plain ==> *self == start,
                plain ==> *self == start,
                decreases rmod.entries.len() - i,
            {
                proof {
                    if plain {
                        crate::patch::yaml::lemma_yv_pairs(rmod.entries@);
                        assert(rmod.view_pairs()[i as int] == (yv(rmod.entries@[i as int].0), yv(rmod.entries@[i as int].1)));
                        assert(plain_entry(rmod.view_pairs()[i as int]));
                        assert(rmod.entries@[i as int].0 is String);
                        assert(!(rmod.entries@[i as int].1 is Hash));
                        if rmod.entries@[i as int].1 is Array {
                            crate::patch::yaml::lemma_yv_seq(rmod.entries@[i as int].1->Array_0@);
                        }
                    }
                }
                let fspec = yaml_err(rmod.entries[i].0.str())?;
                if !is_register_keyword(fspec) {
                    self.process_field(fspec, &rmod.entries[i].1, config)?;
                }
                i = i + 1;
            }
        }

        // Handle field arrays
        match rmod.hash_iter("_array") {
            Some(h) => {
                let mut i: usize = 0;
                while i < h.entries.len()
                    invariant
                        same_but_fields_ext(start, *self),
                    plain ==> *self == start,
                        plain ==> *self == start,
                plain ==> *self == start,
                    decreases h.entries.len() - i,
                {
                    let fspec = yaml_err(h.entries[i].0.str())?;
                    let fmod = yaml_err(h.entries[i].1.hash())?;
                    self.collect_fields_in_array(fspec, fmod)?;
                    i = i + 1;
                }
            },
            None => {},
        }
        Ok(())
    }

    /// Merges as [`Register::merge_fields`] does, where the widths of the
    /// fields add up to at most `u32::MAX`.
    fn merge_checked(&mut self, key: &str, value: Option<&Yaml>) -> (r: Result<(), PatchError>)
        ensures
            r is Ok ==> same_but_fields_ext(*old(self), *final(self)),
    {
        if !widths_fit(self) {
            return Err(PatchError::Invalid(copy_str(key)));
        }
        proof {
            match merge_plan(fields_of(*self), key@, opt_yv(value)) {
                MergePlan::Names(_, ns) => lemma_sum_le_total(fields_of(*self), ns),
                _ => {},
            }
        }
        self.merge_fields(key, value)
    }

    /// Splits as [`Register::split_fields`] does, where every field ends
    /// below 2^32.
    fn split_checked(&mut self, fspec: &str, fsplit: &YamlHash) -> (r: Result<(), PatchError>)
        ensures
            r is Ok ==> same_but_fields_ext(*old(self), *final(self)),
    {
        if !widths_fit(self) {
            return Err(PatchError::Invalid(copy_str(fspec)));
        }
        self.split_fields(fspec, fsplit)
    }
}

} // verus!
