//! Enumerated values of fields: how patches add them and how read and write
//! sets share a field.
use vstd::prelude::*;
use crate::model::{Access, Usage, EnumeratedValue, EnumeratedValues, Field};
use crate::patch::error::{PatchError, PatchErrorKind, failed_with, failed_on_yaml};
use crate::patch::yaml::{YamlV, YamlHash, yv, lemma_yv_seq, group_yaml_views};
use crate::patch::yaml_ext::{parse_i64_spec, str_of, YamlErrorV};
use crate::text::{copy_str, opt_view, copy_opt};

verus! {

/// The content of an [`EnumeratedValue`].
pub struct EnumValueV {
    pub name: Seq<char>,
    pub description: Option<Seq<char>>,
    pub value: Option<u64>,
    pub is_default: Option<bool>,
}

/// The content of an [`EnumeratedValues`] set.
pub struct EnumSetV {
    pub name: Option<Seq<char>>,
    pub usage: Option<Usage>,
    pub derived_from: Option<Seq<char>>,
    pub values: Seq<EnumValueV>,
}

impl View for EnumeratedValue {
    type V = EnumValueV;

    open spec fn view(&self) -> EnumValueV {
        EnumValueV {
            name: self.name@,
            description: opt_view(self.description),
            value: self.value,
            is_default: self.is_default,
        }
    }
}

/// The contents of a list of enumerated values.
pub open spec fn value_views(s: Seq<EnumeratedValue>) -> Seq<EnumValueV> {
    s.map_values(|v: EnumeratedValue| v@)
}

impl View for EnumeratedValues {
    type V = EnumSetV;

    open spec fn view(&self) -> EnumSetV {
        EnumSetV {
            name: opt_view(self.name),
            usage: self.usage,
            derived_from: opt_view(self.derived_from),
            values: value_views(self.values@),
        }
    }
}

/// The contents of a list of enumerated value sets.
pub open spec fn set_views(s: Seq<EnumeratedValues>) -> Seq<EnumSetV> {
    s.map_values(|v: EnumeratedValues| v@)
}

/// A copy of an enumerated value.
pub fn copy_value(v: &EnumeratedValue) -> (r: EnumeratedValue)
    ensures
        r@ == v@,
{
    EnumeratedValue {
        name: copy_str(v.name.as_str()),
        description: copy_opt(&v.description),
        value: v.value,
        is_default: v.is_default,
    }
}

/// A copy of a set of enumerated values.
pub fn copy_set(s: &EnumeratedValues) -> (r: EnumeratedValues)
    ensures
        r@ == s@,
{
    let mut values: Vec<EnumeratedValue> = Vec::new();
    let mut i: usize = 0;
    while i < s.values.len()
        invariant
            i <= s.values@.len(),
            value_views(values@) == value_views(s.values@).take(i as int),
        decreases s.values.len() - i,
    {
        let ghost before = values@;
        let c = copy_value(&s.values[i]);
        values.push(c);
        assert(value_views(values@) =~= value_views(before).push(s.values@[i as int]@));
        assert(value_views(s.values@).take(i + 1) =~= value_views(s.values@).take(i as int).push(
            s.values@[i as int]@,
        ));
        i = i + 1;
    }
    assert(value_views(s.values@).take(i as int) =~= value_views(s.values@));
    EnumeratedValues {
        name: copy_opt(&s.name),
        usage: s.usage,
        derived_from: copy_opt(&s.derived_from),
        values,
    }
}

/// The usage that enumerated values for a field with access `access` get when
/// `usage` is asked for; `None` when the two do not fit together.
pub open spec fn check_usage_spec(access: Access, usage: Option<Usage>) -> Option<Usage> {
    match access {
        Access::ReadWrite | Access::ReadWriteOnce => match usage {
            Some(u) => Some(u),
            None => Some(Usage::ReadWrite),
        },
        Access::ReadOnly => match usage {
            None | Some(Usage::Read) => Some(Usage::Read),
            _ => None,
        },
        Access::WriteOnly | Access::WriteOnce => match usage {
            None | Some(Usage::Write) => Some(Usage::Write),
            _ => None,
        },
    }
}

/// The usage the enumerated values of a field with access `access` have, or
/// an error when `usage` does not fit the access.
pub fn check_usage(access: Access, usage: Option<Usage>) -> (r: Result<Usage, PatchError>)
    ensures
        match check_usage_spec(access, usage) {
            Some(u) => r == Ok::<Usage, PatchError>(u),
            None => failed_with(r, PatchErrorKind::Invalid),
        },
{
    match access {
        Access::ReadWrite | Access::ReadWriteOnce => match usage {
            Some(u) => Ok(u),
            None => Ok(Usage::ReadWrite),
        },
        Access::ReadOnly => match usage {
            None | Some(Usage::Read) => Ok(Usage::Read),
            _ => Err(PatchError::Invalid(String::new())),
        },
        Access::WriteOnly | Access::WriteOnce => match usage {
            None | Some(Usage::Write) => Ok(Usage::Write),
            _ => Err(PatchError::Invalid(String::new())),
        },
    }
}

/// The usage written down for enumerated values: none where it is what the
/// access implies anyway.
pub open spec fn make_usage_spec(access: Access, usage: Usage) -> Option<Usage> {
    match (access, usage) {
        (Access::ReadWrite, Usage::ReadWrite) | (Access::ReadWriteOnce, Usage::ReadWrite) | (
            Access::ReadOnly,
            Usage::Read,
        ) | (Access::WriteOnly, Usage::Write) | (Access::WriteOnce, Usage::Write) => None,
        _ => Some(usage),
    }
}

/// The usage to write down for enumerated values (see [`make_usage_spec`]).
pub fn make_usage(access: Access, usage: Usage) -> (r: Option<Usage>)
    ensures
        r == make_usage_spec(access, usage),
{
    match (access, usage) {
        (Access::ReadWrite, Usage::ReadWrite) | (Access::ReadWriteOnce, Usage::ReadWrite) | (
            Access::ReadOnly,
            Usage::Read,
        ) | (Access::WriteOnly, Usage::Write) | (Access::WriteOnce, Usage::Write) => None,
        _ => Some(usage),
    }
}

/// An ASCII decimal digit.
pub open spec fn is_ascii_digit(c: char) -> bool {
    '0' <= c && c <= '9'
}

/// The name of enumerated values made from the field name `name`: `R` is
/// appended for read, `W` for write values; `None` when the name is empty or
/// starts with a digit.
pub open spec fn ev_name_spec(name: Seq<char>, usage: Option<Usage>) -> Option<Seq<char>> {
    if name.len() == 0 || is_ascii_digit(name[0]) {
        None
    } else {
        Some(
            name + match usage {
                Some(Usage::Read) => seq!['R'],
                Some(Usage::Write) => seq!['W'],
                _ => Seq::empty(),
            },
        )
    }
}

/// Makes the name of enumerated values from a field name (see
/// [`ev_name_spec`]).
pub fn make_ev_name(name: &str, usage: Option<Usage>) -> (r: Result<String, PatchError>)
    ensures
        match ev_name_spec(name@, usage) {
            Some(n) => r matches Ok(s) && s@ == n,
            None => failed_with(r, PatchErrorKind::Invalid),
        },
{
    let n = name.unicode_len();
    if n == 0 {
        return Err(PatchError::Invalid(String::new()));
    }
    let c = name.get_char(0);
    if '0' <= c && c <= '9' {
        return Err(PatchError::Invalid(copy_str(name)));
    }
    let mut out = copy_str(name);
    match usage {
        Some(Usage::Read) => {
            out.append("R");
            proof {
                reveal_strlit("R");
            }
        },
        Some(Usage::Write) => {
            out.append("W");
            proof {
                reveal_strlit("W");
            }
        },
        _ => {},
    }
    proof {
        reveal_strlit("R");
        reveal_strlit("W");
        assert(out@ =~= ev_name_spec(name@, usage).unwrap());
    }
    Ok(out)
}

/// `s` with its usage set to `u`.
pub open spec fn with_usage(s: EnumSetV, u: Usage) -> EnumSetV {
    EnumSetV { usage: Some(u), ..s }
}

/// The enumerated value sets of a field once `val` is added for `usage`
/// (`replace` allows replacing sets that are there already); `None` where
/// the field already has values for that usage and they may not be replaced.
/// A field with one set of unspecified usage and read-write access keeps it
/// for the other direction.
pub open spec fn set_enum_spec(
    list: Seq<EnumSetV>,
    val: EnumSetV,
    usage: Usage,
    replace: bool,
    access: Access,
) -> Option<Seq<EnumSetV>> {
    if usage == Usage::ReadWrite {
        if list.len() == 0 || replace {
            Some(seq![val])
        } else {
            None
        }
    } else if list.len() == 0 {
        Some(seq![val])
    } else if list.len() == 1 {
        let v = list[0];
        if v.usage == Some(usage) || v.usage == Some(Usage::ReadWrite) {
            if replace {
                Some(seq![val])
            } else {
                None
            }
        } else if v.usage is None {
            if (access == Access::ReadWrite || access == Access::ReadWriteOnce) && usage == Usage::Read {
                Some(seq![with_usage(v, Usage::Write), with_usage(val, Usage::Read)])
            } else if (access == Access::ReadWrite || access == Access::ReadWriteOnce) && usage
                == Usage::Write {
                Some(seq![with_usage(v, Usage::Read), with_usage(val, Usage::Write)])
            } else if replace {
                Some(seq![val])
            } else {
                None
            }
        } else {
            Some(list.push(val))
        }
    } else if list.len() == 2 {
        if replace {
            Some(
                seq![
                    if list[0].usage == Some(usage) { val } else { list[0] },
                    if list[1].usage == Some(usage) { val } else { list[1] },
                ],
            )
        } else {
            None
        }
    } else {
        None
    }
}

/// Adds the enumerated values `val` for `usage` to the field `f` (see
/// [`set_enum_spec`]); the field is left as it is on an error.
pub fn set_enum(f: &mut Field, val: EnumeratedValues, usage: Usage, replace: bool, access: Access) -> (r:
    Result<(), PatchError>)
    ensures
        match set_enum_spec(set_views(old(f).enumerated_values@), val@, usage, replace, access) {
            Some(l) => r is Ok && *final(f) == Field {
                enumerated_values: final(f).enumerated_values,
                ..*old(f)
            } && set_views(final(f).enumerated_values@) == l,
            None => r is Err && *final(f) == *old(f),
        },
{
    let ghost vv = val@;
    let n = f.enumerated_values.len();
    if usage == Usage::ReadWrite {
        if n == 0 || replace {
            f.enumerated_values = vec![val];
            assert(set_views(f.enumerated_values@) =~= seq![vv]);
            return Ok(());
        }
        return Err(PatchError::Invalid(copy_str(f.name.as_str())));
    }
    if n == 0 {
        f.enumerated_values.push(val);
        assert(set_views(f.enumerated_values@) =~= seq![vv]);
        return Ok(());
    }
    if n == 1 {
        let vu = f.enumerated_values[0].usage;
        if vu == Some(usage) || vu == Some(Usage::ReadWrite) {
            if replace {
                f.enumerated_values = vec![val];
                assert(set_views(f.enumerated_values@) =~= seq![vv]);
                return Ok(());
            }
            return Err(PatchError::Invalid(copy_str(f.name.as_str())));
        }
        if vu.is_none() {
            let rw = access == Access::ReadWrite || access == Access::ReadWriteOnce;
            if rw && usage == Usage::Read {
                let mut old_set = f.enumerated_values.remove(0);
                old_set.usage = Some(Usage::Write);
                let mut val = val;
                val.usage = Some(Usage::Read);
                f.enumerated_values = vec![old_set, val];
                assert(set_views(f.enumerated_values@) =~= set_enum_spec(
                    set_views(old(f).enumerated_values@),
                    vv,
                    usage,
                    replace,
                    access,
                ).unwrap());
                return Ok(());
            }
            if rw && usage == Usage::Write {
                let mut old_set = f.enumerated_values.remove(0);
                old_set.usage = Some(Usage::Read);
                let mut val = val;
                val.usage = Some(Usage::Write);
                f.enumerated_values = vec![old_set, val];
                assert(set_views(f.enumerated_values@) =~= set_enum_spec(
                    set_views(old(f).enumerated_values@),
                    vv,
                    usage,
                    replace,
                    access,
                ).unwrap());
                return Ok(());
            }
            if replace {
                f.enumerated_values = vec![val];
                assert(set_views(f.enumerated_values@) =~= seq![vv]);
                return Ok(());
            }
            return Err(PatchError::Invalid(copy_str(f.name.as_str())));
        }
        let ghost before = f.enumerated_values@;
        f.enumerated_values.push(val);
        assert(set_views(f.enumerated_values@) =~= set_views(before).push(vv));
        return Ok(());
    }
    if n == 2 {
        if replace {
            let u0 = f.enumerated_values[0].usage;
            let u1 = f.enumerated_values[1].usage;
            let mut second = f.enumerated_values.remove(1);
            let mut first = f.enumerated_values.remove(0);
            if u0 == Some(usage) {
                first = copy_set(&val);
            }
            if u1 == Some(usage) {
                second = val;
            }
            f.enumerated_values = vec![first, second];
            assert(set_views(f.enumerated_values@) =~= set_enum_spec(
                set_views(old(f).enumerated_values@),
                vv,
                usage,
                replace,
                access,
            ).unwrap());
            return Ok(());
        }
        return Err(PatchError::Invalid(copy_str(f.name.as_str())));
    }
    Err(PatchError::Invalid(copy_str(f.name.as_str())))
}


/// Why a list of enumerated values could not be read.
pub enum EvErr {
    Yaml(YamlErrorV),
    Invalid,
}

/// `acc` (ordered by strictly increasing keys) with `x` put in its place.
pub open spec fn insert_by_key(acc: Seq<(u64, EnumValueV)>, x: (u64, EnumValueV)) -> Seq<(u64, EnumValueV)>
    decreases acc.len(),
{
    if acc.len() == 0 {
        seq![x]
    } else if acc.last().0 < x.0 {
        acc.push(x)
    } else {
        insert_by_key(acc.drop_last(), x).push(acc.last())
    }
}

/// Whether some entry of `acc` has the key `k`.
pub open spec fn has_key_u64(acc: Seq<(u64, EnumValueV)>, k: u64) -> bool {
    exists|i: int| 0 <= i < acc.len() && #[trigger] acc[i].0 == k
}

/// The entries of `acc` have strictly increasing keys.
pub open spec fn keys_increasing(acc: Seq<(u64, EnumValueV)>) -> bool {
    forall|i: int, j: int| 0 <= i < j < acc.len() ==> acc[i].0 < acc[j].0
}

/// Reading one entry `name: [value, description]` of a list of enumerated
/// values into `acc`: keys starting with `_` are passed over; the value `-1`
/// marks the default.
pub open spec fn ev_step(acc: Seq<(u64, EnumValueV)>, k: YamlV, v: YamlV) -> Result<Seq<(u64, EnumValueV)>, EvErr> {
    match k {
        YamlV::Str(name) => if name.len() > 0 && name[0] == '_' {
            Ok(acc)
        } else if name.len() == 0 || is_ascii_digit(name[0]) {
            Err(EvErr::Invalid)
        } else {
            match v {
                YamlV::Array(items) => if items.len() < 2 {
                    Err(EvErr::Invalid)
                } else {
                    match parse_i64_spec(items[0]) {
                        None => Err(EvErr::Yaml(YamlErrorV::NotInt(items[0]))),
                        Some(i) => match str_of(items[1]) {
                            None => Err(EvErr::Yaml(YamlErrorV::NotStr(items[1]))),
                            Some(d) => {
                                let key = i as u64;
                                let ev = EnumValueV {
                                    name: name,
                                    description: Some(d),
                                    value: if i == -1 { None } else { Some(key) },
                                    is_default: if i == -1 { Some(true) } else { None },
                                };
                                if has_key_u64(acc, key) {
                                    Err(EvErr::Invalid)
                                } else {
                                    Ok(insert_by_key(acc, (key, ev)))
                                }
                            },
                        },
                    }
                },
                _ => Err(EvErr::Yaml(YamlErrorV::NotVec(v))),
            }
        },
        _ => Err(EvErr::Yaml(YamlErrorV::NotStr(k))),
    }
}

/// Reading the entries of `h` from the `i`-th on into `acc`.
pub open spec fn ev_array_from(h: Seq<(YamlV, YamlV)>, i: int, acc: Seq<(u64, EnumValueV)>) -> Result<Seq<(u64, EnumValueV)>, EvErr>
    decreases h.len() - i,
{
    if i < 0 || i >= h.len() {
        Ok(acc)
    } else {
        match ev_step(acc, h[i].0, h[i].1) {
            Err(e) => Err(e),
            Ok(a2) => ev_array_from(h, i + 1, a2),
        }
    }
}

/// The enumerated values listed in `h`, ordered by value (the default last).
pub open spec fn ev_array_spec(h: Seq<(YamlV, YamlV)>) -> Result<Seq<EnumValueV>, EvErr> {
    match ev_array_from(h, 0, Seq::empty()) {
        Ok(acc) => Ok(acc.map_values(|x: (u64, EnumValueV)| x.1)),
        Err(e) => Err(e),
    }
}

/// Whether `r` failed as `e` says.
pub open spec fn failed_as<T>(r: Result<T, PatchError>, e: EvErr) -> bool {
    match e {
        EvErr::Yaml(y) => failed_on_yaml(r, y),
        EvErr::Invalid => failed_with(r, PatchErrorKind::Invalid),
    }
}

/// The views of keyed entries.
pub open spec fn keyed_views(s: Seq<(u64, EnumeratedValue)>) -> Seq<(u64, EnumValueV)> {
    s.map_values(|x: (u64, EnumeratedValue)| (x.0, x.1@))
}

proof fn lemma_insert_by_key_at(acc: Seq<(u64, EnumValueV)>, x: (u64, EnumValueV), j: int)
    requires
        0 <= j <= acc.len(),
        forall|k: int| j <= k < acc.len() ==> acc[k].0 > x.0,
        j > 0 ==> acc[j - 1].0 < x.0,
    ensures
        insert_by_key(acc, x) == acc.insert(j, x),
    decreases acc.len(),
{
    if acc.len() == 0 {
        assert(acc.insert(j, x) =~= seq![x]);
    } else if j == acc.len() {
        assert(acc.insert(j, x) =~= acc.push(x));
    } else {
        lemma_insert_by_key_at(acc.drop_last(), x, j);
        assert(acc.drop_last().insert(j, x).push(acc.last()) =~= acc.insert(j, x));
    }
}

/// Reads a list of enumerated values (see [`ev_array_spec`]).
pub fn make_ev_array(values: &YamlHash) -> (r: Result<Vec<EnumeratedValue>, PatchError>)
    ensures
        match ev_array_spec(values.view_pairs()) {
            Ok(vs) => r matches Ok(v) && value_views(v@) == vs,
            Err(e) => failed_as(r, e),
        },
{
    broadcast use group_yaml_views;
    let ghost h = values.view_pairs();
    let mut acc: Vec<(u64, EnumeratedValue)> = Vec::new();
    let n = values.entries.len();
    let mut i: usize = 0;
    assert(ev_array_from(h, 0, Seq::empty()) == ev_array_from(h, 0, keyed_views(acc@))) by {
        assert(keyed_views(acc@) =~= Seq::<(u64, EnumValueV)>::empty());
    }
    while i < n
        invariant
            n == values.entries@.len(),
            h == values.view_pairs(),
            h.len() == n,
            forall|j: int| 0 <= j < n ==> #[trigger] h[j] == (yv(values.entries@[j].0), yv(values.entries@[j].1)),
            i <= n,
            keys_increasing(keyed_views(acc@)),
            ev_array_from(h, 0, Seq::empty()) == ev_array_from(h, i as int, keyed_views(acc@)),
        decreases n - i,
    {
        let ghost av = keyed_views(acc@);
        assert(h[i as int] == (yv(values.entries@[i as int].0), yv(values.entries@[i as int].1)));
        let k = &values.entries[i].0;
        let v = &values.entries[i].1;
        let name = match k.str() {
            Err(e) => {
                return Err(PatchError::Yaml(e));
            },
            Ok(s) => s,
        };
        let m = name.unicode_len();
        if m > 0 && name.get_char(0) == '_' {
            i = i + 1;
            continue;
        }
        if m == 0 || ('0' <= name.get_char(0) && name.get_char(0) <= '9') {
            return Err(PatchError::Invalid(copy_str(name)));
        }
        let items = match v.vec() {
            Err(e) => {
                return Err(PatchError::Yaml(e));
            },
            Ok(a) => a,
        };
        proof {
            lemma_yv_seq(items@);
        }
        if items.len() < 2 {
            return Err(PatchError::Invalid(copy_str(name)));
        }
        let iv = match items[0].i64() {
            Err(e) => {
                return Err(PatchError::Yaml(e));
            },
            Ok(x) => x,
        };
        let d = match items[1].str() {
            Err(e) => {
                return Err(PatchError::Yaml(e));
            },
            Ok(x) => x,
        };
        let key = #[verifier::truncate] (iv as u64);
        let ev = if iv == -1 {
            EnumeratedValue { name: copy_str(name), description: Some(copy_str(d)), value: None, is_default: Some(true) }
        } else {
            EnumeratedValue { name: copy_str(name), description: Some(copy_str(d)), value: Some(key), is_default: None }
        };
        // Find the place of the new key, checking that it is new.
        let mut j = acc.len();
        while j > 0 && acc[j - 1].0 > key
            invariant
                j <= acc@.len(),
                forall|k2: int| j <= k2 < acc@.len() ==> acc@[k2].0 > key,
            decreases j,
        {
            j = j - 1;
        }
        if j > 0 && acc[j - 1].0 == key {
            assert(av[j - 1].0 == key);
            return Err(PatchError::Invalid(copy_str(name)));
        }
        proof {
            assert(!has_key_u64(av, key)) by {
                if has_key_u64(av, key) {
                    let q = choose|q: int| 0 <= q < av.len() && #[trigger] av[q].0 == key;
                    if q >= j {
                        assert(acc@[q].0 > key);
                    } else {
                        assert(av[q].0 <= av[j - 1].0);
                    }
                }
            }
            lemma_insert_by_key_at(av, (key, ev@), j as int);
        }
        acc.insert(j, (key, ev));
        proof {
            assert(keyed_views(acc@) =~= av.insert(j as int, (key, ev@)));
        }
        i = i + 1;
    }
    let mut out: Vec<EnumeratedValue> = Vec::new();
    let ghost final_acc = keyed_views(acc@);
    let total = acc.len();
    let mut q: usize = 0;
    assert(final_acc.skip(0) =~= final_acc);
    while q < total
        invariant
            total == final_acc.len(),
            q <= total,
            keyed_views(acc@) == final_acc.skip(q as int),
            value_views(out@) == final_acc.take(q as int).map_values(|x: (u64, EnumValueV)| x.1),
        decreases total - q,
    {
        let ghost a0 = acc@;
        assert(keyed_views(a0).len() == a0.len());
        assert(keyed_views(a0)[0] == final_acc[q as int]);
        let (_, ev) = acc.remove(0);
        let ghost before = out@;
        out.push(ev);
        assert(value_views(out@) =~= value_views(before).push(ev@));
        q = q + 1;
        assert(final_acc.take(q as int).map_values(|x: (u64, EnumValueV)| x.1) =~= final_acc.take(
            q - 1,
        ).map_values(|x: (u64, EnumValueV)| x.1).push(final_acc[q - 1].1));
        assert(keyed_views(acc@) =~= keyed_views(a0).drop_first());
        assert(keyed_views(acc@) =~= final_acc.skip(q as int));
    }
    assert(final_acc.take(q as int) =~= final_acc);
    Ok(out)
}

} // verus!
