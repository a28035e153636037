//! The patch rules for one peripheral: its interrupts, registers and
//! clusters.
use vstd::prelude::*;
use crate::interrupts::svd_reader::{Interrupt, InterruptV};
use crate::model::{Peripheral, Register, RegisterCluster};
use crate::patch::block::{
    Kinds, Rename, clear_fields_in, clear_ok_rc, cleared_rc, kind_compiles, keep_kind, rc_renamed, remove_selected, rename_members, rename_glob,
    renamed_text, uses_glob,
};
use crate::patch::builders::{BlockPath, ReadErr, failed_reading, int_entry, text_entry, k_name, k_description};
use crate::patch::error::{PatchError, PatchErrorKind, failed_with};
use crate::patch::names::{name_matches, spec_compiles_for, try_matchname, plain_glob_ok};
use crate::patch::yaml::{YamlHash, YamlV, yv};
use crate::patch::yaml_ext::{YamlErrorV, entry};
use crate::patch::collect_regs::{collect_in_array, collected};
use crate::patch::process::{rename_only, lemma_rename_only_absent, renamed_by_rules, strip_rules_ok, delete_outcome, listed, k_delete, k_interrupts, delete_rule, post_process_members, pre_rules, process_clusters_rule, process_members, expand_cluster_rule};
use crate::patch::yaml::Yaml;
use crate::patch::{Config, Spec, spec_parts};
use crate::text::{copy_str, opt_view, str_eq};

verus! {

/// Every glob needed to match the interrupt names compiles.
pub open spec fn irq_names_compile(is: Seq<Interrupt>, spec: Seq<char>) -> bool {
    forall|i: int| 0 <= i < is.len() ==> spec_compiles_for(#[trigger] is[i].name@, spec)
}

/// The test that keeps interrupts that `spec` does not select.
pub open spec fn keep_irq(spec: Seq<char>) -> spec_fn(Interrupt) -> bool {
    |i: Interrupt| !name_matches(i.name@, spec)
}

/// What an interrupt rule sets: name, description, value.
pub struct IrqPatchV {
    pub name: Option<Seq<char>>,
    pub description: Option<Seq<char>>,
    pub value: Option<u32>,
}

/// What an interrupt rule `h` sets, or why it cannot be read.
pub open spec fn irq_patch_spec(h: Seq<(YamlV, YamlV)>) -> Result<IrqPatchV, ReadErr> {
    match text_entry(h, k_description()) {
        Err(e) => Err(e),
        Ok(d) => match text_entry(h, k_name()) {
            Err(e) => Err(e),
            Ok(n) => match int_entry(h, seq!['v', 'a', 'l', 'u', 'e']) {
                Err(e) => Err(e),
                Ok(v) => Ok(
                    IrqPatchV {
                        name: n,
                        description: d,
                        value: match v {
                            Some(x) => Some(x as u32),
                            None => None,
                        },
                    },
                ),
            },
        },
    }
}

/// An interrupt rule read out of the patch.
pub struct IrqPatch {
    pub name: Option<String>,
    pub description: Option<String>,
    pub value: Option<u32>,
}

impl View for IrqPatch {
    type V = IrqPatchV;

    open spec fn view(&self) -> IrqPatchV {
        IrqPatchV { name: opt_view(self.name), description: opt_view(self.description), value: self.value }
    }
}

/// Reads an interrupt rule (see [`irq_patch_spec`]).
pub fn make_interrupt(h: &YamlHash) -> (r: Result<IrqPatch, PatchError>)
    ensures
        match irq_patch_spec(h.view_pairs()) {
            Ok(v) => r matches Ok(p) && p@ == v,
            Err(e) => failed_reading(r, e),
        },
{
    proof {
        reveal_strlit("description");
        reveal_strlit("name");
        reveal_strlit("value");
        assert("description"@ =~= k_description());
        assert("name"@ =~= k_name());
        assert("value"@ =~= seq!['v', 'a', 'l', 'u', 'e']);
    }
    let d = match h.get_string("description") {
        Ok(x) => x,
        Err(e) => {
            return Err(PatchError::Yaml(e));
        },
    };
    let n = match h.get_string("name") {
        Ok(x) => x,
        Err(e) => {
            return Err(PatchError::Yaml(e));
        },
    };
    let v = match h.get_i64("value") {
        Ok(Some(x)) => Some(#[verifier::truncate] (x as u32)),
        Ok(None) => None,
        Err(e) => {
            return Err(PatchError::Yaml(e));
        },
    };
    Ok(IrqPatch { name: n, description: d, value: v })
}

/// `b` is interrupt `a` with what `p` sets.
pub open spec fn irq_patched(a: InterruptV, p: IrqPatchV, b: InterruptV) -> bool {
    &&& b.name == match p.name {
        Some(n) => n,
        None => a.name,
    }
    &&& b.description == if p.description is Some { p.description } else { a.description }
    &&& b.value == match p.value {
        Some(v) => v,
        None => a.value,
    }
}

/// `b` is `a` with, at most, other interrupts.
pub open spec fn same_but_interrupts(a: Peripheral, b: Peripheral) -> bool {
    b == Peripheral { interrupt: b.interrupt, ..a }
}

/// Some interrupt in `s` is called `name`.
pub open spec fn has_irq_named(s: Seq<Interrupt>, name: Seq<char>) -> bool {
    exists|i: int| 0 <= i < s.len() && #[trigger] s[i].name@ == name
}

/// The interrupt that an add rule makes.
pub open spec fn irq_added(name: Seq<char>, p: IrqPatchV) -> InterruptV {
    InterruptV { name: name, description: p.description, value: p.value.unwrap() }
}

/// The views of a list of interrupts.
pub open spec fn irq_views(s: Seq<Interrupt>) -> Seq<InterruptV> {
    s.map_values(|i: Interrupt| i@)
}

impl Peripheral {
    /// Delete the interrupts that `ispec` selects.
    pub fn delete_interrupt(&mut self, ispec: &str) -> (r: Result<(), PatchError>)
        ensures
            same_but_interrupts(*old(self), *final(self)),
            r is Err <==> !irq_names_compile(old(self).interrupt@, ispec@),
            r is Err ==> *final(self) == *old(self) && failed_with(r, PatchErrorKind::InvalidSpec),
            r is Ok ==> same_but_interrupts(*old(self), *final(self)),
            r is Ok ==> final(self).interrupt@ == old(self).interrupt@.filter(keep_irq(ispec@)),
    {
        let mut flags: Vec<bool> = Vec::new();
        let mut i: usize = 0;
        while i < self.interrupt.len()
            invariant
                i <= self.interrupt@.len(),
                flags@.len() == i,
                forall|j: int| 0 <= j < i ==> spec_compiles_for(#[trigger] self.interrupt@[j].name@, ispec@),
                forall|j: int| 0 <= j < i ==> flags@[j] == !keep_irq(ispec@)(#[trigger] self.interrupt@[j]),
            decreases self.interrupt.len() - i,
        {
            match try_matchname(self.interrupt[i].name.as_str(), ispec) {
                None => {
                    return Err(PatchError::InvalidSpec(copy_str(ispec)));
                },
                Some(b) => {
                    flags.push(b);
                },
            }
            i = i + 1;
        }
        let ghost orig = self.interrupt@;
        let ghost keep = keep_irq(ispec@);
        let mut v: Vec<Interrupt> = Vec::new();
        std::mem::swap(&mut v, &mut self.interrupt);
        let mut kept: Vec<Interrupt> = Vec::new();
        let n = v.len();
        let mut j: usize = 0;
        while j < n
            invariant
                n == orig.len(),
                flags@.len() == n,
                forall|q: int| 0 <= q < n ==> flags@[q] == !keep(#[trigger] orig[q]),
                keep == keep_irq(ispec@),
                j <= n,
                v@ == orig.skip(j as int),
                kept@ == orig.take(j as int).filter(keep),
            decreases n - j,
        {
            assert(v@[0] == orig[j as int]);
            let x = v.remove(0);
            proof {
                orig.take(j as int).lemma_filter_push(orig[j as int], keep);
                assert(orig.take(j + 1) =~= orig.take(j as int).push(orig[j as int]));
                assert(flags@[j as int] == !keep(orig[j as int]));
            }
            if !flags[j] {
                kept.push(x);
            }
            j = j + 1;
            assert(v@ =~= orig.skip(j as int));
        }
        assert(orig.take(j as int) =~= orig);
        self.interrupt = kept;
        Ok(())
    }

    /// Add the interrupt `iname` as `iadd` describes it.
    pub fn add_interrupt(&mut self, iname: &str, iadd: &YamlHash) -> (r: Result<(), PatchError>)
        ensures
            same_but_interrupts(*old(self), *final(self)),
            r is Err ==> *final(self) == *old(self),
            has_irq_named(old(self).interrupt@, iname@) ==> failed_with(r, PatchErrorKind::AlreadyExists),
            !has_irq_named(old(self).interrupt@, iname@) ==> match irq_patch_spec(iadd.view_pairs()) {
                Err(e) => failed_reading(r, e),
                Ok(p) => if p.value is None {
                    failed_with(r, PatchErrorKind::Invalid)
                } else {
                    r is Ok && same_but_interrupts(*old(self), *final(self))
                        && irq_views(final(self).interrupt@) == irq_views(old(self).interrupt@).push(irq_added(iname@, p))
                },
            },
    {
        let mut i: usize = 0;
        while i < self.interrupt.len()
            invariant
                i <= self.interrupt@.len(),
                forall|j: int| 0 <= j < i ==> self.interrupt@[j].name@ != iname@,
            decreases self.interrupt.len() - i,
        {
            if str_eq(self.interrupt[i].name.as_str(), iname) {
                return Err(PatchError::AlreadyExists(copy_str(iname)));
            }
            i = i + 1;
        }
        let p = make_interrupt(iadd)?;
        let value = match p.value {
            Some(v) => v,
            None => {
                return Err(PatchError::Invalid(copy_str(iname)));
            },
        };
        let ghost before = self.interrupt@;
        self.interrupt.push(Interrupt { name: copy_str(iname), description: p.description, value });
        assert(irq_views(self.interrupt@) =~= irq_views(before).push(self.interrupt@.last()@));
        Ok(())
    }

    /// Change the interrupts that `ispec` selects as `imod` says.
    pub fn modify_interrupt(&mut self, ispec: &str, imod: &YamlHash) -> (r: Result<(), PatchError>)
        ensures
            same_but_interrupts(*old(self), *final(self)),
            !irq_names_compile(old(self).interrupt@, ispec@) ==> failed_with(r, PatchErrorKind::InvalidSpec),
            r is Ok ==> same_but_interrupts(*old(self), *final(self)),
            r is Ok ==> final(self).interrupt@.len() == old(self).interrupt@.len() && forall|i: int|
                0 <= i < old(self).interrupt@.len() ==> if name_matches(#[trigger] old(self).interrupt@[i].name@, ispec@) {
                    irq_patched(old(self).interrupt@[i]@, irq_patch_spec(imod.view_pairs())->Ok_0, final(self).interrupt@[i]@)
                } else {
                    final(self).interrupt@[i] == old(self).interrupt@[i]
                },
    {
        let mut flags: Vec<bool> = Vec::new();
        let mut any = false;
        let mut i: usize = 0;
        while i < self.interrupt.len()
            invariant
                i <= self.interrupt@.len(),
                flags@.len() == i,
                forall|j: int| 0 <= j < i ==> spec_compiles_for(#[trigger] self.interrupt@[j].name@, ispec@),
                forall|j: int| 0 <= j < i ==> flags@[j] == name_matches(#[trigger] self.interrupt@[j].name@, ispec@),
                any <==> exists|j: int| 0 <= j < i && #[trigger] flags@[j],
            decreases self.interrupt.len() - i,
        {
            match try_matchname(self.interrupt[i].name.as_str(), ispec) {
                None => {
                    return Err(PatchError::InvalidSpec(copy_str(ispec)));
                },
                Some(b) => {
                    let ghost before = flags@;
                    flags.push(b);
                    if b {
                        any = true;
                    }
                    proof {
                        assert(flags@[i as int] == b);
                        if exists|j: int| 0 <= j < i && #[trigger] before[j] {
                            let w = choose|j: int| 0 <= j < i && #[trigger] before[j];
                            assert(flags@[w]);
                        }
                    }
                },
            }
            i = i + 1;
        }
        if !any {
            proof {
                assert forall|j: int| 0 <= j < self.interrupt@.len() implies !name_matches(#[trigger] self.interrupt@[j].name@, ispec@) by {
                    assert(!flags@[j]);
                }
            }
            return Ok(());
        }
        let p = make_interrupt(imod)?;
        let ghost orig = self.interrupt@;
        let mut v: Vec<Interrupt> = Vec::new();
        std::mem::swap(&mut v, &mut self.interrupt);
        let mut out: Vec<Interrupt> = Vec::new();
        let n = v.len();
        let mut j: usize = 0;
        while j < n
            invariant
                n == orig.len(),
                flags@.len() == n,
                forall|q: int| 0 <= q < n ==> flags@[q] == name_matches(#[trigger] orig[q].name@, ispec@),
                j <= n,
                v@ == orig.skip(j as int),
                out@.len() == j,
                forall|q: int| 0 <= q < j ==> if name_matches(#[trigger] orig[q].name@, ispec@) {
                    irq_patched(orig[q]@, p@, out@[q]@)
                } else {
                    out@[q] == orig[q]
                },
            decreases n - j,
        {
            assert(v@[0] == orig[j as int]);
            let mut x = v.remove(0);
            assert(flags@[j as int] == name_matches(orig[j as int].name@, ispec@));
            if flags[j] {
                match &p.name {
                    Some(nm) => {
                        x.name = nm.clone();
                    },
                    None => {},
                }
                if p.description.is_some() {
                    x.description = match &p.description {
                        Some(d) => Some(d.clone()),
                        None => None,
                    };
                }
                match p.value {
                    Some(val) => {
                        x.value = val;
                    },
                    None => {},
                }
            }
            out.push(x);
            j = j + 1;
            assert(v@ =~= orig.skip(j as int));
        }
        self.interrupt = out;
        Ok(())
    }
}


/// `b` is `a` with, at most, other registers and clusters.
pub open spec fn same_but_registers(a: Peripheral, b: Peripheral) -> bool {
    b == Peripheral { registers: b.registers, ..a }
}

/// The registers and clusters of a peripheral, none counting as empty.
pub open spec fn members_of(p: Peripheral) -> Seq<RegisterCluster> {
    match p.registers {
        Some(v) => v@,
        None => Seq::empty(),
    }
}

/// Some member of kind `k` in `cs` is selected by `spec`.
pub open spec fn any_selected(cs: Seq<RegisterCluster>, spec: Seq<char>, k: Kinds) -> bool {
    exists|i: int| 0 <= i < cs.len() && !keep_kind(spec, k)(#[trigger] cs[i])
}

/// What a deletion of the members of kind `k` selected by `spec` makes of
/// peripheral `a`: `b`, with the outcome `r`.
pub open spec fn deleted_from(a: Peripheral, spec: Seq<char>, k: Kinds, r: Result<(), PatchError>, b: Peripheral) -> bool {
    match a.registers {
        None => failed_with(r, PatchErrorKind::NotFound) && b == a,
        Some(cs) => if !kind_compiles(cs@, spec, k) {
            failed_with(r, PatchErrorKind::InvalidSpec) && b == a
        } else {
            r is Ok && same_but_registers(a, b) && b.registers is Some && members_of(b) == cs@.filter(
                keep_kind(spec, k),
            )
        },
    }
}

/// `r` with its success value dropped.
pub open spec fn unit_of<T>(r: Result<T, PatchError>) -> Result<(), PatchError> {
    match r {
        Ok(_) => Ok(()),
        Err(e) => Err(e),
    }
}

impl Peripheral {
    /// Deletes the members of kind `k` that `spec` selects, and says whether
    /// any went.
    fn delete_members(&mut self, spec: &str, k: Kinds) -> (r: Result<bool, PatchError>)
        ensures
            deleted_from(*old(self), spec@, k, unit_of(r), *final(self)),
            r matches Ok(any) ==> any == any_selected(members_of(*old(self)), spec@, k),
    {
        match self.registers.take() {
            None => Err(PatchError::NotFound(copy_str(spec))),
            Some(mut cs) => {
                let res = remove_selected(&mut cs, spec, k);
                self.registers = Some(cs);
                match res {
                    None => Err(PatchError::InvalidSpec(copy_str(spec))),
                    Some(any) => Ok(any),
                }
            },
        }
    }

    /// Delete registers and clusters matched by rcspec inside ptag
    pub fn delete_child(&mut self, rcspec: &str) -> (r: Result<(), PatchError>)
        ensures
            deleted_from(*old(self), rcspec@, Kinds::Both, r, *final(self)),
    {
        self.delete_members(rcspec, Kinds::Both)?;
        Ok(())
    }

    /// Delete registers matched by rspec inside ptag
    pub fn delete_register(&mut self, rspec: &str) -> (r: Result<(), PatchError>)
        ensures
            deleted_from(*old(self), rspec@, Kinds::Registers, r, *final(self)),
    {
        self.delete_members(rspec, Kinds::Registers)?;
        Ok(())
    }

    /// Delete the clusters that `cspec` selects; unless `cspec` starts with
    /// `?~`, it is an error when none is there.
    pub fn delete_cluster(&mut self, cspec: &str) -> (r: Result<(), PatchError>)
        ensures
            ({
                let (s, ignore) = spec_parts(cspec@);
                if deleted_from(*old(self), s, Kinds::Clusters, Ok(()), *final(self)) && !ignore
                    && !any_selected(members_of(*old(self)), s, Kinds::Clusters) {
                    failed_with(r, PatchErrorKind::NotFound)
                } else {
                    deleted_from(*old(self), s, Kinds::Clusters, r, *final(self))
                }
            }),
    {
        let (cspec, ignore) = cspec.spec();
        let any = self.delete_members(cspec, Kinds::Clusters)?;
        if !any && !ignore {
            return Err(PatchError::NotFound(copy_str(cspec)));
        }
        Ok(())
    }
}

/// What renaming by `how` with `t` makes of peripheral `a`: `b`, with the
/// outcome `r`.
pub open spec fn renamed_in(a: Peripheral, how: Rename, t: Seq<char>, r: Result<(), PatchError>, b: Peripheral) -> bool {
    match a.registers {
        None => r is Ok && b == a,
        Some(cs) => if uses_glob(how) && !plain_glob_ok(rename_glob(how, t)) {
            failed_with(r, PatchErrorKind::InvalidSpec) && b == a
        } else {
            &&& r is Ok
            &&& same_but_registers(a, b)
            &&& b.registers is Some
            &&& members_of(b).len() == cs@.len()
            &&& forall|i: int|
                0 <= i < cs@.len() ==> rc_renamed(
                    #[trigger] cs@[i],
                    members_of(b)[i],
                    |s: Seq<char>| renamed_text(how, t, s),
                    uses_glob(how),
                )
        },
    }
}

impl Peripheral {
    fn rename(&mut self, how: Rename, t: &str) -> (r: Result<(), PatchError>)
        ensures
            renamed_in(*old(self), how, t@, r, *final(self)),
    {
        match self.registers.take() {
            None => Ok(()),
            Some(mut cs) => {
                let res = rename_members(&mut cs, how, t);
                self.registers = Some(cs);
                res
            },
        }
    }

    /// Delete substring from the beginning of register names inside ptag
    pub fn strip_start(&mut self, prefix: &str) -> (r: Result<(), PatchError>)
        ensures
            renamed_in(*old(self), Rename::StripStart, prefix@, r, *final(self)),
    {
        self.rename(Rename::StripStart, prefix)
    }

    /// Delete substring from the ending of register names inside ptag
    pub fn strip_end(&mut self, suffix: &str) -> (r: Result<(), PatchError>)
        ensures
            renamed_in(*old(self), Rename::StripEnd, suffix@, r, *final(self)),
    {
        self.rename(Rename::StripEnd, suffix)
    }

    /// Add prefix at the beginning of register names inside ptag
    pub fn add_prefix(&mut self, prefix: &str) -> (r: Result<(), PatchError>)
        ensures
            renamed_in(*old(self), Rename::Prefix, prefix@, r, *final(self)),
    {
        self.rename(Rename::Prefix, prefix)
    }

    /// Add suffix at the ending of register names inside ptag
    pub fn add_suffix(&mut self, suffix: &str) -> (r: Result<(), PatchError>)
        ensures
            renamed_in(*old(self), Rename::Suffix, suffix@, r, *final(self)),
    {
        self.rename(Rename::Suffix, suffix)
    }
}

impl Peripheral {
    /// Clear contents of all fields inside registers matched by rspec
    pub fn clear_fields(&mut self, rspec: &str) -> (r: Result<(), PatchError>)
        ensures
            r is Ok <==> forall|i: int|
                0 <= i < members_of(*old(self)).len() ==> clear_ok_rc(rspec@, #[trigger] members_of(*old(self))[i]),
            r is Err ==> failed_with(r, PatchErrorKind::InvalidSpec),
            r is Ok ==> same_but_registers(*old(self), *final(self)) && (final(self).registers is Some
                <==> old(self).registers is Some) && members_of(*final(self)).len() == members_of(*old(self)).len()
                && forall|i: int|
                0 <= i < members_of(*old(self)).len() ==> cleared_rc(
                    rspec@,
                    #[trigger] members_of(*old(self))[i],
                    members_of(*final(self))[i],
                ),
    {
        match self.registers.take() {
            None => Ok(()),
            Some(mut cs) => {
                assert(members_of(*old(self)) == cs@);
                let res = clear_fields_in(&mut cs, rspec);
                self.registers = Some(cs);
                assert(members_of(*self) == cs@);
                res
            },
        }
    }
}

impl Peripheral {
    /// Collect same registers in peripheral into register array
    pub fn collect_in_array(&mut self, rspec: &str, rmod: &YamlHash, bpath: &BlockPath, config: &Config) -> (r: Result<(), PatchError>)
        ensures
            old(self).registers is None ==> failed_with(r, PatchErrorKind::NotFound) && *final(self) == *old(self),
            old(self).registers is Some ==> same_but_registers(*old(self), *final(self)) && final(self).registers is Some
                && collected(members_of(*old(self)), rspec@, rmod.view_pairs(), r, members_of(*final(self))),
    {
        match self.registers.take() {
            None => Err(PatchError::NotFound(copy_str(rspec))),
            Some(mut cs) => {
                assert(members_of(*old(self)) == cs@);
                let res = collect_in_array(&mut cs, bpath, rspec, rmod, config);
                self.registers = Some(cs);
                assert(members_of(*self) == cs@);
                res
            },
        }
    }
}

/// The interrupts `is` once each specification of `specs` has deleted the
/// interrupts it selects, in turn.
pub open spec fn irq_deletes(is: Seq<Interrupt>, specs: Seq<Seq<char>>) -> Seq<Interrupt>
    decreases specs.len(),
{
    if specs.len() == 0 {
        is
    } else {
        irq_deletes(is, specs.drop_last()).filter(keep_irq(specs.last()))
    }
}

/// The interrupt specifications that a block's `_delete` mapping lists under
/// `_interrupts`.
pub open spec fn irq_delete_specs(pmod: Seq<(YamlV, YamlV)>) -> Seq<Seq<char>> {
    match entry(pmod, k_delete()) {
        Some(YamlV::Hash(d)) => listed(d, k_interrupts()),
        _ => Seq::empty(),
    }
}

/// The keys `_modify` and `_add`.
pub open spec fn k_modify() -> Seq<char> {
    seq!['_', 'm', 'o', 'd', 'i', 'f', 'y']
}

pub open spec fn k_add() -> Seq<char> {
    seq!['_', 'a', 'd', 'd']
}

/// The mapping under `k` of the rules has an `_interrupts` key.
pub open spec fn has_irq_rules(pmod: Seq<(YamlV, YamlV)>, k: Seq<char>) -> bool {
    match entry(pmod, k) {
        Some(YamlV::Hash(m)) => exists|i: int| 0 <= i < m.len() && #[trigger] m[i].0 == YamlV::Str(k_interrupts()),
        _ => false,
    }
}

/// The rules change or add no interrupts.
pub open spec fn no_irq_edits(pmod: Seq<(YamlV, YamlV)>) -> bool {
    !has_irq_rules(pmod, k_modify()) && !has_irq_rules(pmod, k_add())
}

/// Deleting the interrupts that `s` selects keeps exactly those that `s`
/// does not select, in their order.
pub proof fn law_interrupt_delete(is: Seq<Interrupt>, s: Seq<char>)
    ensures
        irq_deletes(is, seq![s]) == is.filter(|i: Interrupt| !name_matches(i.name@, s)),
{
    assert(seq![s].drop_last() =~= Seq::<Seq<char>>::empty());
    assert(irq_deletes(is, seq![s].drop_last()) == is);
    assert(keep_irq(s) =~= (|i: Interrupt| !name_matches(i.name@, s)));
}

/// `b` is `a` with, at most, other registers, clusters and interrupts.
pub open spec fn same_but_contents(a: Peripheral, b: Peripheral) -> bool {
    b == Peripheral { registers: b.registers, interrupt: b.interrupt, ..a }
}

impl Peripheral {
    /// The interrupt rules of a peripheral: `_interrupts` of `_delete`,
    /// `_modify` and `_add`. With `lenient` (a derived peripheral) a `_delete`,
    /// `_modify` or `_add` that is no mapping is passed over.
    #[verifier::loop_isolation(false)]
    fn interrupt_rules(&mut self, pmod: &YamlHash, lenient: bool) -> (r: Result<(), PatchError>)
        ensures
            same_but_interrupts(*old(self), *final(self)),
            r is Ok && no_irq_edits(pmod.view_pairs()) ==> final(self).interrupt@ == irq_deletes(
                old(self).interrupt@,
                irq_delete_specs(pmod.view_pairs()),
            ),
            rename_only(pmod.view_pairs()) ==> r is Ok,
    {
        broadcast use crate::patch::yaml::group_yaml_views;
        proof {
            if rename_only(pmod.view_pairs()) {
                reveal_strlit("_delete");
                reveal_strlit("_modify");
                reveal_strlit("_add");
                lemma_rename_only_absent(pmod.view_pairs(), "_delete"@);
                lemma_rename_only_absent(pmod.view_pairs(), "_modify"@);
                lemma_rename_only_absent(pmod.view_pairs(), "_add"@);
            }
        }
        proof {
            reveal_strlit("_delete");
            reveal_strlit("_interrupts");
            reveal_strlit("_modify");
            reveal_strlit("_add");
            assert("_delete"@ =~= k_delete());
            assert("_interrupts"@ =~= k_interrupts());
            assert("_modify"@ =~= k_modify());
            assert("_add"@ =~= k_add());
        }
        let ghost start = *self;
        let ghost pv = pmod.view_pairs();
        let dels = match pmod.get_hash("_delete") {
            Ok(Some(d)) => d.str_vec_iter("_interrupts"),
            _ => Vec::new(),
        };
        let ghost ds = dels@.map_values(|x: String| x@);
        assert(ds =~= irq_delete_specs(pv));
        assert(ds.take(0) =~= Seq::<Seq<char>>::empty());
        let mut i: usize = 0;
        while i < dels.len()
            invariant
                same_but_interrupts(start, *self),
                i <= dels@.len(),
                ds == dels@.map_values(|x: String| x@),
                self.interrupt@ == irq_deletes(start.interrupt@, ds.take(i as int)),
            decreases dels.len() - i,
        {
            assert(ds.take(i + 1).drop_last() =~= ds.take(i as int));
            assert(ds.take(i + 1).last() == dels@[i as int]@);
            self.delete_interrupt(dels[i].as_str())?;
            i = i + 1;
        }
        assert(ds.take(i as int) =~= ds);
        let ghost after = self.interrupt@;
        let modify = if lenient {
            match pmod.get_hash("_modify") {
                Ok(h) => h,
                Err(_) => None,
            }
        } else {
            pmod.hash_iter("_modify")
        };
        match modify {
            Some(h) => {
                let mut i: usize = 0;
                while i < h.entries.len()
                    invariant
                        same_but_interrupts(start, *self),
                        no_irq_edits(pv) ==> self.interrupt@ == after,
                    decreases h.entries.len() - i,
                {
                    let is_irq = match &h.entries[i].0 {
                        Yaml::String(k) => str_eq(k.as_str(), "_interrupts"),
                        _ => false,
                    };
                    if is_irq {
                        proof {
                            crate::patch::yaml::lemma_yv_pairs(h.entries@);
                            assert(h.view_pairs()[i as int].0 == yv(h.entries@[i as int].0));
                            assert(h.view_pairs()[i as int].0 == YamlV::Str(k_interrupts()));
                        }
                        let m = yaml_error(h.entries[i].1.hash())?;
                        let mut j: usize = 0;
                        while j < m.entries.len()
                            invariant
                                same_but_interrupts(start, *self),
                                !no_irq_edits(pv),
                            decreases m.entries.len() - j,
                        {
                            let ispec = yaml_error(m.entries[j].0.str())?;
                            let imod = yaml_error(m.entries[j].1.hash())?;
                            self.modify_interrupt(ispec, imod)?;
                            j = j + 1;
                        }
                    }
                    i = i + 1;
                }
            },
            None => {},
        }
        let add = if lenient {
            match pmod.get_hash("_add") {
                Ok(h) => h,
                Err(_) => None,
            }
        } else {
            pmod.hash_iter("_add")
        };
        match add {
            Some(h) => {
                let mut i: usize = 0;
                while i < h.entries.len()
                    invariant
                        same_but_interrupts(start, *self),
                        no_irq_edits(pv) ==> self.interrupt@ == after,
                    decreases h.entries.len() - i,
                {
                    let is_irq = match &h.entries[i].0 {
                        Yaml::String(k) => str_eq(k.as_str(), "_interrupts"),
                        _ => false,
                    };
                    if is_irq {
                        proof {
                            crate::patch::yaml::lemma_yv_pairs(h.entries@);
                            assert(h.view_pairs()[i as int].0 == yv(h.entries@[i as int].0));
                            assert(h.view_pairs()[i as int].0 == YamlV::Str(k_interrupts()));
                        }
                        let m = yaml_error(h.entries[i].1.hash())?;
                        let mut j: usize = 0;
                        while j < m.entries.len()
                            invariant
                                same_but_interrupts(start, *self),
                                !no_irq_edits(pv),
                            decreases m.entries.len() - j,
                        {
                            let iname = yaml_error(m.entries[j].0.str())?;
                            let iadd = yaml_error(m.entries[j].1.hash())?;
                            self.add_interrupt(iname, iadd)?;
                            j = j + 1;
                        }
                    }
                    i = i + 1;
                }
            },
            None => {},
        }
        Ok(())
    }

    /// Work through a peripheral, handling all registers
    pub fn process(&mut self, pmod: &YamlHash, config: &Config) -> (r: Result<(), PatchError>)
        ensures
            same_but_contents(*old(self), *final(self)),
            old(self).derived_from is Some ==> final(self).registers == old(self).registers,
            r is Ok && no_irq_edits(pmod.view_pairs()) ==> final(self).interrupt@ == irq_deletes(
                old(self).interrupt@,
                irq_delete_specs(pmod.view_pairs()),
            ),
            old(self).derived_from is None && rename_only(pmod.view_pairs()) ==> (r is Ok <==> strip_rules_ok(
                pmod.view_pairs(),
            )) && (r is Ok ==> members_of(*final(self)).len() == members_of(*old(self)).len() && forall|q: int|
                0 <= q < members_of(*old(self)).len() ==> renamed_by_rules(
                    #[trigger] members_of(*old(self))[q],
                    members_of(*final(self))[q],
                    pmod.view_pairs(),
                )),
            old(self).derived_from is None ==> ({
                let o = delete_outcome(members_of(*old(self)), old(self).registers is Some, pmod.view_pairs());
                &&& r is Ok ==> o.0
                &&& !o.0 ==> r is Err && members_of(*final(self)) == o.1 && final(self).interrupt
                    == old(self).interrupt
            }),
    {
        if self.derived_from.is_some() {
            // For derived peripherals, only process interrupts
            return self.interrupt_rules(pmod, true);
        }
        let ghost start = *self;
        let ppath = BlockPath { peripheral: self.name.clone(), path: Vec::new() };
        let present = self.registers.is_some();
        let mut cs = match self.registers.take() {
            Some(v) => v,
            None => Vec::new(),
        };
        let r = self.process_members_of(&mut cs, present, pmod, &ppath, config);
        self.registers = if present || cs.len() > 0 {
            Some(cs)
        } else {
            None
        };
        r
    }

    fn process_members_of(
        &mut self,
        cs: &mut Vec<RegisterCluster>,
        present: bool,
        pmod: &YamlHash,
        ppath: &BlockPath,
        config: &Config,
    ) -> (r: Result<(), PatchError>)
        ensures
            same_but_interrupts(*old(self), *final(self)),
            r is Ok && no_irq_edits(pmod.view_pairs()) ==> final(self).interrupt@ == irq_deletes(
                old(self).interrupt@,
                irq_delete_specs(pmod.view_pairs()),
            ),
            rename_only(pmod.view_pairs()) ==> (r is Ok <==> strip_rules_ok(pmod.view_pairs())) && (r is Ok
                ==> final(cs)@.len() == old(cs)@.len() && forall|q: int|
                0 <= q < old(cs)@.len() ==> renamed_by_rules(#[trigger] old(cs)@[q], final(cs)@[q], pmod.view_pairs())),
            ({
                let o = delete_outcome(old(cs)@, present, pmod.view_pairs());
                &&& r is Ok ==> o.0
                &&& !o.0 ==> r is Err && final(cs)@ == o.1 && *final(self) == *old(self)
            }),
    {
        proof {
            if rename_only(pmod.view_pairs()) {
                reveal_strlit("_delete");
                lemma_rename_only_absent(pmod.view_pairs(), "_delete"@);
                assert("_delete"@ =~= k_delete());
            }
        }
        let ghost c0 = cs@;
        delete_rule(cs, present, pmod)?;
        assert(rename_only(pmod.view_pairs()) ==> cs@ == c0);
        let had = present;
        pre_rules(cs, pmod, ppath, true)?;
        self.interrupt_rules(pmod, false)?;
        process_members(cs, pmod, ppath, config, true)?;
        post_process_members(cs, had || cs.len() > 0, pmod, ppath, config)?;
        process_clusters_rule(cs, pmod, ppath, config)?;
        expand_cluster_rule(cs, had || cs.len() > 0, pmod)
    }
}

fn yaml_error<T>(r: Result<T, crate::patch::yaml_ext::YamlError>) -> (o: Result<T, PatchError>)
    ensures
        r is Ok ==> o == Ok::<T, PatchError>(r->Ok_0),
        r is Err ==> o is Err,
{
    match r {
        Ok(x) => Ok(x),
        Err(e) => Err(PatchError::Yaml(e)),
    }
}

} // verus!
