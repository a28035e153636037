//! The enumerated values of a device written out as a patch: for each
//! peripheral, register and field that has some, the values with their
//! descriptions.
use vstd::prelude::*;
use crate::common::str_utils::text_or_empty;
use crate::model::{Cluster, Device, EnumeratedValue, EnumeratedValues, Field, Peripheral, Register, RegisterCluster, Usage};
use crate::patch::yaml::{Yaml, YamlHash, YamlV, first_key, group_yaml_views, lemma_yv_pairs, yv, yv_pairs, yv_seq};
use crate::patch::yaml_ext::to_yaml;
use crate::text::copy_str;

verus! {

/// Field `f` has enumerated values.
pub open spec fn field_has_enums(f: Field) -> bool {
    f.enumerated_values@.len() > 0
}

/// Some field of register `r` has enumerated values.
pub open spec fn reg_has_enums(r: Register) -> bool {
    match r.fields {
        Some(v) => exists|i: int| 0 <= i < v@.len() && field_has_enums(#[trigger] v@[i]),
        None => false,
    }
}

/// Some register in `rc`, at any depth, has enumerated values.
pub open spec fn rc_has_enums(rc: RegisterCluster) -> bool
    decreases rc,
{
    match rc {
        RegisterCluster::Register(r) => reg_has_enums(r),
        RegisterCluster::Cluster(c) => exists|i: int|
            0 <= i < c.children@.len() && rc_has_enums(#[trigger] c.children@[i]),
    }
}

/// Some member among `v`, at any depth, has enumerated values.
pub open spec fn rcs_have_enums(v: Seq<RegisterCluster>) -> bool {
    exists|i: int| 0 <= i < v.len() && rc_has_enums(#[trigger] v[i])
}

/// Some register of peripheral `p` has enumerated values.
pub open spec fn periph_has_enums(p: Peripheral) -> bool {
    match p.registers {
        Some(v) => rcs_have_enums(v@),
        None => false,
    }
}

/// Whether a part of a device has enumerated values somewhere in it.
pub trait HasEnums {
    /// Whether this part has enumerated values.
    spec fn holds_enums(&self) -> bool;

    /// Whether this part has enumerated values.
    fn has_enums(&self) -> (r: bool)
        ensures
            r == self.holds_enums(),
    ;
}

impl HasEnums for Field {
    open spec fn holds_enums(&self) -> bool {
        field_has_enums(*self)
    }

    fn has_enums(&self) -> (r: bool) {
        self.enumerated_values.len() > 0
    }
}

impl HasEnums for Register {
    open spec fn holds_enums(&self) -> bool {
        reg_has_enums(*self)
    }

    fn has_enums(&self) -> (r: bool) {
        match &self.fields {
            Some(fs) => {
                let mut found = false;
                let mut i: usize = 0;
                while i < fs.len()
                    invariant
                        i <= fs@.len(),
                        found <==> exists|j: int| 0 <= j < i && field_has_enums(#[trigger] fs@[j]),
                    decreases fs.len() - i,
                {
                    if fs[i].enumerated_values.len() > 0 {
                        assert(field_has_enums(fs@[i as int]));
                        found = true;
                    }
                    i = i + 1;
                }
                found
            },
            None => false,
        }
    }
}

/// Whether some member among `v`, at any depth, has enumerated values.
pub fn members_have_enums(v: &Vec<RegisterCluster>) -> (r: bool)
    ensures
        r == rcs_have_enums(v@),
    decreases v@,
{
    let mut i: usize = 0;
    while i < v.len()
        invariant
            i <= v@.len(),
            forall|j: int| 0 <= j < i ==> !rc_has_enums(#[trigger] v@[j]),
        decreases v.len() - i,
    {
        let ghost vi = v@[i as int];
        assert(decreases_to!(v@ => vi));
        let here = match &v[i] {
            RegisterCluster::Register(r) => r.has_enums(),
            RegisterCluster::Cluster(c) => members_have_enums(&c.children),
        };
        if here {
            return true;
        }
        i = i + 1;
    }
    false
}

impl HasEnums for RegisterCluster {
    open spec fn holds_enums(&self) -> bool {
        rc_has_enums(*self)
    }

    fn has_enums(&self) -> (r: bool) {
        match self {
            RegisterCluster::Register(r) => r.has_enums(),
            RegisterCluster::Cluster(c) => members_have_enums(&c.children),
        }
    }
}

impl HasEnums for Cluster {
    open spec fn holds_enums(&self) -> bool {
        rcs_have_enums(self.children@)
    }

    fn has_enums(&self) -> (r: bool) {
        members_have_enums(&self.children)
    }
}

impl HasEnums for Peripheral {
    open spec fn holds_enums(&self) -> bool {
        periph_has_enums(*self)
    }

    fn has_enums(&self) -> (r: bool) {
        match &self.registers {
            Some(v) => members_have_enums(v),
            None => false,
        }
    }
}

/// The entries `h` with `k` set to `v`, as [`YamlHash::insert`] does.
pub open spec fn ins(h: Seq<(YamlV, YamlV)>, k: YamlV, v: YamlV) -> Seq<(YamlV, YamlV)> {
    match first_key(h, k) {
        Some(i) => h.remove(i as int).push((k, v)),
        None => h.push((k, v)),
    }
}

/// The entries `h` with every entry of `ps` set in turn.
pub open spec fn extend(h: Seq<(YamlV, YamlV)>, ps: Seq<(YamlV, YamlV)>) -> Seq<(YamlV, YamlV)>
    decreases ps.len(),
{
    if ps.len() == 0 {
        h
    } else {
        ins(extend(h, ps.drop_last()), ps.last().0, ps.last().1)
    }
}

/// The number written for an enumerated value: its value, or -1 for the
/// default.
pub open spec fn ev_number(v: EnumeratedValue) -> i64 {
    match v.value {
        Some(x) => x as i64,
        None => -1i64,
    }
}

/// The entry written for an enumerated value: its name, and its number with
/// its description.
pub open spec fn ev_entry(v: EnumeratedValue) -> (YamlV, YamlV) {
    (
        YamlV::Str(v.name@),
        YamlV::Array(seq![YamlV::Integer(ev_number(v)), YamlV::Str(text_or_empty(v.description))]),
    )
}

/// The entries `h` with the entries of the values `vs` set in turn.
pub open spec fn values_into(h: Seq<(YamlV, YamlV)>, vs: Seq<EnumeratedValue>) -> Seq<(YamlV, YamlV)>
    decreases vs.len(),
{
    if vs.len() == 0 {
        h
    } else {
        ins(values_into(h, vs.drop_last()), ev_entry(vs.last()).0, ev_entry(vs.last()).1)
    }
}

/// The text `_name`.
pub open spec fn k_name() -> Seq<char> {
    seq!['_', 'n', 'a', 'm', 'e']
}

/// The text `_derivedFrom`.
pub open spec fn k_derived() -> Seq<char> {
    seq!['_', 'd', 'e', 'r', 'i', 'v', 'e', 'd', 'F', 'r', 'o', 'm']
}

/// The text `_read`.
pub open spec fn k_read() -> Seq<char> {
    seq!['_', 'r', 'e', 'a', 'd']
}

/// The text `_write`.
pub open spec fn k_write() -> Seq<char> {
    seq!['_', 'w', 'r', 'i', 't', 'e']
}

/// The text `_clusters`.
pub open spec fn k_clusters() -> Seq<char> {
    seq!['_', 'c', 'l', 'u', 's', 't', 'e', 'r', 's']
}

/// The entries written for a set of enumerated values: its name, then
/// either what it derives from or its values.
pub open spec fn evs_entries(e: EnumeratedValues) -> Seq<(YamlV, YamlV)> {
    let h0 = match e.name {
        Some(n) => seq![(YamlV::Str(k_name()), YamlV::Str(n@))],
        None => Seq::empty(),
    };
    match e.derived_from {
        Some(d) => ins(h0, YamlV::Str(k_derived()), YamlV::Str(d@)),
        None => values_into(h0, e.values@),
    }
}

/// A set of enumerated values can be written: unless it derives, each value
/// has a number or is the default.
pub open spec fn evs_writable(e: EnumeratedValues) -> bool {
    e.derived_from is None ==> forall|j: int|
        0 <= j < e.values@.len() ==> (#[trigger] e.values@[j]).value is Some || e.values@[j].is_default == Some(
            true,
        )
}

/// The entries `h` with those of each set of `sets` added in turn: a read
/// or write set under `_read` or `_write`, any other merged in.
pub open spec fn sets_into(h: Seq<(YamlV, YamlV)>, sets: Seq<EnumeratedValues>) -> Seq<(YamlV, YamlV)>
    decreases sets.len(),
{
    if sets.len() == 0 {
        h
    } else {
        let h1 = sets_into(h, sets.drop_last());
        let e = sets.last();
        match e.usage {
            Some(Usage::Read) => ins(h1, YamlV::Str(k_read()), YamlV::Hash(evs_entries(e))),
            Some(Usage::Write) => ins(h1, YamlV::Str(k_write()), YamlV::Hash(evs_entries(e))),
            _ => extend(h1, evs_entries(e)),
        }
    }
}

/// A field's enumerated values can be written: every set can, and a set
/// that is neither for reading nor for writing is the only one.
pub open spec fn field_writable(f: Field) -> bool {
    forall|j: int|
        0 <= j < f.enumerated_values@.len() ==> {
            &&& evs_writable(#[trigger] f.enumerated_values@[j])
            &&& !(f.enumerated_values@[j].usage matches Some(Usage::Read) || f.enumerated_values@[j].usage matches Some(
                Usage::Write,
            )) ==> f.enumerated_values@.len() == 1
        }
}

/// The entries `h` with an entry for each field of `fs` that has
/// enumerated values.
pub open spec fn fields_into(h: Seq<(YamlV, YamlV)>, fs: Seq<Field>) -> Seq<(YamlV, YamlV)>
    decreases fs.len(),
{
    if fs.len() == 0 {
        h
    } else {
        let h1 = fields_into(h, fs.drop_last());
        let f = fs.last();
        if field_has_enums(f) {
            ins(h1, YamlV::Str(f.name@), YamlV::Hash(sets_into(Seq::empty(), f.enumerated_values@)))
        } else {
            h1
        }
    }
}

/// The fields of register `r`.
pub open spec fn fields_of(r: Register) -> Seq<Field> {
    match r.fields {
        Some(v) => v@,
        None => Seq::empty(),
    }
}

/// Every field of every register in `rc`, at any depth, can be written.
pub open spec fn rc_writable(rc: RegisterCluster) -> bool
    decreases rc,
{
    match rc {
        RegisterCluster::Register(r) => forall|j: int|
            0 <= j < fields_of(r).len() && field_has_enums(#[trigger] fields_of(r)[j]) ==> field_writable(fields_of(r)[j]),
        RegisterCluster::Cluster(c) => forall|i: int|
            0 <= i < c.children@.len() ==> rc_writable(#[trigger] c.children@[i]),
    }
}

/// The entries for the registers (first) and the clusters (second) among
/// `regs` that have enumerated values.
pub open spec fn block_parts(regs: Seq<RegisterCluster>) -> (Seq<(YamlV, YamlV)>, Seq<(YamlV, YamlV)>)
    decreases regs, 0int,
{
    if regs.len() == 0 {
        (Seq::empty(), Seq::empty())
    } else {
        let (p, pc) = block_parts(regs.drop_last());
        let m = regs.last();
        if !rc_has_enums(m) {
            (p, pc)
        } else {
            match m {
                RegisterCluster::Cluster(c) => {
                    proof {
                        assert(decreases_to!(regs => regs[regs.len() - 1]));
                    }
                    (p, ins(pc, YamlV::Str(c.name@), block_yaml(c.children@)))
                },
                RegisterCluster::Register(r) => (
                    ins(p, YamlV::Str(r.name@), YamlV::Hash(fields_into(Seq::empty(), fields_of(r)))),
                    pc,
                ),
            }
        }
    }
}

/// The mapping written for the members `regs` of a block: an entry for each
/// register that has enumerated values, and the clusters that have some
/// under `_clusters`.
pub open spec fn block_yaml(regs: Seq<RegisterCluster>) -> YamlV
    decreases regs, 1int,
{
    let (p, pc) = block_parts(regs);
    if pc.len() == 0 {
        YamlV::Hash(p)
    } else {
        YamlV::Hash(ins(p, YamlV::Str(k_clusters()), YamlV::Hash(pc)))
    }
}

/// The entries for the peripherals `ps` that have enumerated values.
pub open spec fn device_entries(ps: Seq<Peripheral>) -> Seq<(YamlV, YamlV)>
    decreases ps.len(),
{
    if ps.len() == 0 {
        Seq::empty()
    } else {
        let h1 = device_entries(ps.drop_last());
        let p = ps.last();
        match p.registers {
            Some(v) => if periph_has_enums(p) {
                ins(h1, YamlV::Str(p.name@), block_yaml(v@))
            } else {
                h1
            },
            None => h1,
        }
    }
}

/// Every register of every peripheral of `ps`, at any depth, can be
/// written.
pub open spec fn device_writable(ps: Seq<Peripheral>) -> bool {
    forall|i: int| 0 <= i < ps.len() ==> periph_writable(#[trigger] ps[i])
}

/// Every register of peripheral `p`, at any depth, can be written.
pub open spec fn periph_writable(p: Peripheral) -> bool {
    match p.registers {
        Some(v) => forall|j: int| 0 <= j < v@.len() ==> rc_writable(#[trigger] v@[j]),
        None => true,
    }
}

/// The node written for an enumerated value: its number and description.
fn ev_node(v: &EnumeratedValue) -> (r: Yaml)
    requires
        v.value is Some || v.is_default == Some(true),
    ensures
        yv(r) == ev_entry(*v).1,
{
    broadcast use group_yaml_views;
    let num = match v.value {
        Some(x) => #[verifier::truncate] (x as i64),
        None => -1i64,
    };
    let desc = match &v.description {
        Some(d) => d.clone(),
        None => String::new(),
    };
    let mut items: Vec<Yaml> = Vec::new();
    items.push(Yaml::Integer(num));
    items.push(Yaml::String(desc));
    assert(yv_seq(items@) =~= seq![YamlV::Integer(ev_number(*v)), YamlV::Str(text_or_empty(v.description))]);
    Yaml::Array(items)
}

/// The entries written for a set of enumerated values (see
/// [`evs_entries`]).
pub fn evs_to_hash(evs: &EnumeratedValues) -> (r: YamlHash)
    requires
        evs_writable(*evs),
    ensures
        r.view_pairs() == evs_entries(*evs),
{
    proof {
        reveal_strlit("_name");
        reveal_strlit("_derivedFrom");
        assert("_name"@ =~= k_name());
        assert("_derivedFrom"@ =~= k_derived());
    }
    let mut hash = YamlHash::new();
    match &evs.name {
        Some(n) => {
            hash.insert(to_yaml("_name"), Yaml::String(n.clone()));
        },
        None => {},
    }
    let ghost h0 = hash.view_pairs();
    assert(h0 =~= match evs.name {
        Some(n) => seq![(YamlV::Str(k_name()), YamlV::Str(n@))],
        None => Seq::<(YamlV, YamlV)>::empty(),
    });
    match &evs.derived_from {
        Some(d) => {
            hash.insert(to_yaml("_derivedFrom"), Yaml::String(d.clone()));
        },
        None => {
            let mut i: usize = 0;
            assert(evs.values@.take(0) =~= Seq::<EnumeratedValue>::empty());
            while i < evs.values.len()
                invariant
                    i <= evs.values@.len(),
                    evs_writable(*evs),
                    evs.derived_from is None,
                    hash.view_pairs() == values_into(h0, evs.values@.take(i as int)),
                decreases evs.values.len() - i,
            {
                let v = &evs.values[i];
                assert(evs.values@[i as int].value is Some || evs.values@[i as int].is_default == Some(true));
                let node = ev_node(v);
                hash.insert(Yaml::String(v.name.clone()), node);
                assert(evs.values@.take(i + 1).drop_last() =~= evs.values@.take(i as int));
                i = i + 1;
            }
            assert(evs.values@.take(i as int) =~= evs.values@);
        },
    }
    hash
}

/// Sets every entry of `src` in `dst` in turn (see [`extend`]).
fn extend_hash(dst: &mut YamlHash, src: YamlHash)
    ensures
        final(dst).view_pairs() == extend(old(dst).view_pairs(), src.view_pairs()),
{
    broadcast use group_yaml_views;
    let ghost ps = src.view_pairs();
    let ghost start = dst.view_pairs();
    let mut src = src;
    let n = src.entries.len();
    let mut j: usize = 0;
    assert(ps.take(0) =~= Seq::<(YamlV, YamlV)>::empty());
    while j < n
        invariant
            n == ps.len(),
            j <= n,
            src.view_pairs() == ps.skip(j as int),
            src.entries@.len() == n - j,
            dst.view_pairs() == extend(start, ps.take(j as int)),
        decreases n - j,
    {
        let ghost before = src.entries@;
        let (k, v) = src.entries.remove(0);
        proof {
            lemma_yv_pairs(before);
            lemma_yv_pairs(src.entries@);
        }
        assert((yv(k), yv(v)) == ps[j as int]) by {
            assert((k, v) == before[0]);
            assert(yv_pairs(before)[0] == (yv(before[0].0), yv(before[0].1)));
            assert(yv_pairs(before)[0] == ps.skip(j as int)[0]);
        }
        assert(yv_pairs(src.entries@) =~= ps.skip(j + 1)) by {
            assert(yv_pairs(before) == ps.skip(j as int));
            assert forall|q: int| 0 <= q < src.entries@.len() implies #[trigger] yv_pairs(src.entries@)[q] == ps.skip(j + 1)[q] by {
                assert(src.entries@[q] == before[q + 1]);
                assert(yv_pairs(before)[q + 1] == ps.skip(j as int)[q + 1]);
            }
        }
        dst.insert(k, v);
        assert(ps.take(j + 1).drop_last() =~= ps.take(j as int));
        assert(ps.take(j + 1).last() == ps[j as int]);
        j = j + 1;
    }
    assert(ps.take(n as int) =~= ps);
}

/// The entries written for the enumerated values of field `f` (see
/// [`sets_into`]).
pub fn field_to_hash(f: &Field) -> (r: YamlHash)
    requires
        field_writable(*f),
    ensures
        r.view_pairs() == sets_into(Seq::empty(), f.enumerated_values@),
{
    proof {
        reveal_strlit("_read");
        reveal_strlit("_write");
        assert("_read"@ =~= k_read());
        assert("_write"@ =~= k_write());
    }
    let mut hash = YamlHash::new();
    let mut i: usize = 0;
    let ghost sets = f.enumerated_values@;
    assert(sets.take(0) =~= Seq::<EnumeratedValues>::empty());
    while i < f.enumerated_values.len()
        invariant
            sets == f.enumerated_values@,
            i <= sets.len(),
            field_writable(*f),
            hash.view_pairs() == sets_into(Seq::empty(), sets.take(i as int)),
        decreases f.enumerated_values.len() - i,
    {
        proof {
            reveal_strlit("_read");
            reveal_strlit("_write");
            assert("_read"@ =~= k_read());
            assert("_write"@ =~= k_write());
        }
        let e = &f.enumerated_values[i];
        assert(evs_writable(sets[i as int]));
        let eh = evs_to_hash(e);
        assert(sets.take(i + 1).drop_last() =~= sets.take(i as int));
        assert(sets.take(i + 1).last() == *e);
        match e.usage {
            Some(Usage::Read) => {
                hash.insert(to_yaml("_read"), Yaml::Hash(eh));
            },
            Some(Usage::Write) => {
                hash.insert(to_yaml("_write"), Yaml::Hash(eh));
            },
            _ => {
                extend_hash(&mut hash, eh);
            },
        }
        i = i + 1;
    }
    assert(sets.take(i as int) =~= sets);
    hash
}

/// The entries written for the fields of register `r` that have
/// enumerated values (see [`fields_into`]).
fn reg_to_hash(r: &Register) -> (o: YamlHash)
    requires
        rc_writable(RegisterCluster::Register(*r)),
    ensures
        o.view_pairs() == fields_into(Seq::empty(), fields_of(*r)),
{
    let mut hash = YamlHash::new();
    match &r.fields {
        Some(fs) => {
            let mut i: usize = 0;
            assert(fs@.take(0) =~= Seq::<Field>::empty());
            while i < fs.len()
                invariant
                    i <= fs@.len(),
                    fields_of(*r) == fs@,
                    rc_writable(RegisterCluster::Register(*r)),
                    hash.view_pairs() == fields_into(Seq::empty(), fs@.take(i as int)),
                decreases fs.len() - i,
            {
                let f = &fs[i];
                assert(fs@.take(i + 1).drop_last() =~= fs@.take(i as int));
                assert(fs@.take(i + 1).last() == *f);
                if f.has_enums() {
                    assert(field_has_enums(fields_of(*r)[i as int]));
                    let fh = field_to_hash(f);
                    hash.insert(Yaml::String(f.name.clone()), Yaml::Hash(fh));
                }
                i = i + 1;
            }
            assert(fs@.take(i as int) =~= fs@);
        },
        None => {},
    }
    hash
}

/// The mapping written for the members `regs` of a block (see
/// [`block_yaml`]).
pub fn rc_enum_extract(regs: &Vec<RegisterCluster>) -> (r: Yaml)
    requires
        forall|i: int| 0 <= i < regs@.len() ==> rc_writable(#[trigger] regs@[i]),
    ensures
        yv(r) == block_yaml(regs@),
    decreases regs@,
{
    proof {
        reveal_strlit("_clusters");
        assert("_clusters"@ =~= k_clusters());
    }
    let mut phash = YamlHash::new();
    let mut pchash = YamlHash::new();
    let mut i: usize = 0;
    assert(regs@.take(0) =~= Seq::<RegisterCluster>::empty());
    while i < regs.len()
        invariant
            i <= regs@.len(),
            forall|q: int| 0 <= q < regs@.len() ==> rc_writable(#[trigger] regs@[q]),
            (phash.view_pairs(), pchash.view_pairs()) == block_parts(regs@.take(i as int)),
        decreases regs.len() - i,
    {
        let ghost m = regs@[i as int];
        assert(decreases_to!(regs@ => m));
        assert(regs@.take(i + 1).drop_last() =~= regs@.take(i as int));
        assert(regs@.take(i + 1).last() == m);
        assert(rc_writable(m));
        if regs[i].has_enums() {
            match &regs[i] {
                RegisterCluster::Cluster(c) => {
                    let sub = rc_enum_extract(&c.children);
                    pchash.insert(Yaml::String(c.name.clone()), sub);
                },
                RegisterCluster::Register(r) => {
                    let rh = reg_to_hash(r);
                    phash.insert(Yaml::String(r.name.clone()), Yaml::Hash(rh));
                },
            }
        }
        i = i + 1;
    }
    assert(regs@.take(i as int) =~= regs@);
    if pchash.len() > 0 {
        phash.insert(to_yaml("_clusters"), Yaml::Hash(pchash));
    }
    Yaml::Hash(phash)
}

/// The enumerated values of a device, by peripheral (see
/// [`device_entries`]).
pub fn enum_extract(device: &Device) -> (r: Yaml)
    requires
        device_writable(device.peripherals@),
    ensures
        yv(r) == YamlV::Hash(device_entries(device.peripherals@)),
{
    let ps = &device.peripherals;
    let mut hash = YamlHash::new();
    let mut i: usize = 0;
    assert(ps@.take(0) =~= Seq::<Peripheral>::empty());
    while i < ps.len()
        invariant
            i <= ps@.len(),
            ps@ == device.peripherals@,
            device_writable(ps@),
            hash.view_pairs() == device_entries(ps@.take(i as int)),
        decreases ps.len() - i,
    {
        let p = &ps[i];
        assert(ps@.take(i + 1).drop_last() =~= ps@.take(i as int));
        assert(ps@.take(i + 1).last() == *p);
        match &p.registers {
            Some(regs) => {
                if p.has_enums() {
                    assert(periph_writable(ps@[i as int]));
                    let y = rc_enum_extract(regs);
                    hash.insert(Yaml::String(p.name.clone()), y);
                }
            },
            None => {},
        }
        i = i + 1;
    }
    assert(ps@.take(i as int) =~= ps@);
    Yaml::Hash(hash)
}

} // verus!
