//! The patch rules of a device: its peripherals, processor and own
//! properties.
use vstd::prelude::*;
use crate::interrupts::svd_reader::{Interrupt, InterruptV};
use crate::model::{
    AddressBlock, AddressBlockUsage, Cpu, Device, Endian, Peripheral, RegisterCluster, RegisterProperties,
};
use crate::patch::builders::{BlockPath, ReadErr, failed_reading, k_derived_from, k_description, k_name, text_entry};
use crate::patch::error::{PatchError, PatchErrorKind, failed_with};
use crate::patch::names::{name_matches, spec_compiles_for, try_matchname};
use crate::patch::peripheral::{IrqPatch, make_interrupt};
use crate::patch::reg_builders::{
    build_registers, check_reset, get_register_properties, merge_props, props_merged, reset_fits, set_text,
};
use crate::patch::yaml::{Yaml, YamlHash, YamlV, yv};
use crate::patch::yaml_ext::{YamlError, entry, str_items};
use crate::patch::Config;
use crate::text::{chars_of, copy_str, opt_view, str_eq, string_from_chars, sub_chars};
use crate::patch::duplicate::{periph_same, dup_peripheral, dup_interrupts};
use crate::patch::peripheral::{irq_views, same_but_contents, irq_patch_spec, irq_patched, IrqPatchV};

verus! {

fn yerr<T>(r: Result<T, YamlError>) -> (o: Result<T, PatchError>)
    ensures
        r is Ok ==> o == Ok::<T, PatchError>(r->Ok_0),
        r is Err ==> o is Err,
{
    match r {
        Ok(x) => Ok(x),
        Err(e) => Err(PatchError::Yaml(e)),
    }
}

/// The usage of an address block spelled as in a description file.
pub open spec fn usage_of_text(s: Seq<char>) -> Option<AddressBlockUsage> {
    if s == seq!['r', 'e', 'g', 'i', 's', 't', 'e', 'r', 's'] {
        Some(AddressBlockUsage::Registers)
    } else if s == seq!['b', 'u', 'f', 'f', 'e', 'r'] {
        Some(AddressBlockUsage::Buffer)
    } else if s == seq!['r', 'e', 's', 'e', 'r', 'v', 'e', 'd'] {
        Some(AddressBlockUsage::Reserved)
    } else {
        None
    }
}

/// Reads the usage of an address block (`AddressBlockUsage::parse_str`).
pub fn parse_usage(s: &str) -> (r: Option<AddressBlockUsage>)
    ensures
        r == usage_of_text(s@),
{
    proof {
        reveal_strlit("registers");
        reveal_strlit("buffer");
        reveal_strlit("reserved");
        assert("registers"@ =~= seq!['r', 'e', 'g', 'i', 's', 't', 'e', 'r', 's']);
        assert("buffer"@ =~= seq!['b', 'u', 'f', 'f', 'e', 'r']);
        assert("reserved"@ =~= seq!['r', 'e', 's', 'e', 'r', 'v', 'e', 'd']);
    }
    if str_eq(s, "registers") {
        Some(AddressBlockUsage::Registers)
    } else if str_eq(s, "buffer") {
        Some(AddressBlockUsage::Buffer)
    } else if str_eq(s, "reserved") {
        Some(AddressBlockUsage::Reserved)
    } else {
        None
    }
}

/// What an address block rule sets.
#[derive(Clone, Copy)]
pub struct AddressBlockPatch {
    pub offset: Option<u32>,
    pub size: Option<u32>,
    pub usage: Option<AddressBlockUsage>,
}

/// Reads an address block rule: `offset`, `size`, `usage`.
pub fn make_address_block(h: &YamlHash) -> (r: Result<AddressBlockPatch, PatchError>) {
    let offset = match yerr(h.get_i64("offset"))? {
        Some(i) => Some(#[verifier::truncate] (i as u32)),
        None => None,
    };
    let size = match yerr(h.get_i64("size"))? {
        Some(i) => Some(#[verifier::truncate] (i as u32)),
        None => None,
    };
    let usage = match yerr(h.get_str("usage"))? {
        Some(t) => parse_usage(t),
        None => None,
    };
    Ok(AddressBlockPatch { offset, size, usage })
}

/// Builds an address block: offset, size and usage have to be given.
pub fn build_address_block(p: &AddressBlockPatch) -> (r: Result<AddressBlock, PatchError>)
    ensures
        r is Ok <==> (p.offset is Some && p.size is Some && p.usage is Some),
        r matches Ok(b) ==> b.offset == p.offset.unwrap() && b.size == p.size.unwrap() && b.usage
            == p.usage.unwrap() && b.protection is None,
{
    match (p.offset, p.size, p.usage) {
        (Some(offset), Some(size), Some(usage)) => Ok(AddressBlock { offset, size, usage, protection: None }),
        _ => Err(PatchError::Invalid(copy_str("addressBlock"))),
    }
}

/// `b` is address block `a` with what `p` sets.
pub open spec fn block_patched(a: AddressBlock, p: AddressBlockPatch, b: AddressBlock) -> bool {
    &&& b.offset == match p.offset {
        Some(o) => o,
        None => a.offset,
    }
    &&& b.size == match p.size {
        Some(o) => o,
        None => a.size,
    }
    &&& b.usage == match p.usage {
        Some(o) => o,
        None => a.usage,
    }
    &&& b.protection == a.protection
}

/// Changes an address block as `p` says.
pub fn modify_address_block(a: &mut AddressBlock, p: &AddressBlockPatch)
    ensures
        block_patched(*old(a), *p, *final(a)),
{
    match p.offset {
        Some(o) => {
            a.offset = o;
        },
        None => {},
    }
    match p.size {
        Some(o) => {
            a.size = o;
        },
        None => {},
    }
    match p.usage {
        Some(o) => {
            a.usage = o;
        },
        None => {},
    }
}

/// Builds the address blocks that a list of rules describes.
pub fn make_address_blocks(v: &Vec<Yaml>) -> (r: Result<Vec<AddressBlock>, PatchError>)
    ensures
        r matches Ok(bs) ==> bs@.len() == v@.len(),
{
    let mut out: Vec<AddressBlock> = Vec::new();
    let mut i: usize = 0;
    while i < v.len()
        invariant
            i <= v@.len(),
            out@.len() == i,
        decreases v.len() - i,
    {
        let h = yerr(v[i].hash())?;
        let p = make_address_block(h)?;
        out.push(build_address_block(&p)?);
        i = i + 1;
    }
    Ok(out)
}

/// What a peripheral rule sets.
pub struct PeriphPatch {
    pub name: Option<String>,
    pub display_name: Option<String>,
    pub version: Option<String>,
    pub description: Option<String>,
    pub derived_from: Option<String>,
    pub group_name: Option<String>,
    pub base_address: Option<u64>,
    pub interrupt: Option<Vec<Interrupt>>,
    pub default_register_properties: RegisterProperties,
    pub address_block: Option<Vec<AddressBlock>>,
    pub registers: Option<Vec<RegisterCluster>>,
}

fn opt_string(o: Option<&str>) -> (r: Option<String>)
    ensures
        opt_view(r) == match o {
            Some(t) => Some(t@),
            None => None,
        },
{
    match o {
        Some(t) => Some(copy_str(t)),
        None => None,
    }
}

/// Builds the interrupts that a mapping of interrupt rules describes; each
/// needs a value.
fn make_interrupts(h: &YamlHash) -> (r: Result<Vec<Interrupt>, PatchError>)
    ensures
        r matches Ok(v) ==> v@.len() == h.entries@.len(),
{
    let mut out: Vec<Interrupt> = Vec::new();
    let mut i: usize = 0;
    while i < h.entries.len()
        invariant
            i <= h.entries@.len(),
            out@.len() == i,
        decreases h.entries.len() - i,
    {
        let ih = yerr(h.entries[i].1.hash())?;
        let p = make_interrupt(ih)?;
        let name = yerr(h.entries[i].0.str())?;
        let value = match p.value {
            Some(v) => v,
            None => {
                return Err(PatchError::Invalid(copy_str(name)));
            },
        };
        out.push(Interrupt { name: copy_str(name), description: p.description, value });
        i = i + 1;
    }
    Ok(out)
}

/// Reads what a peripheral rule sets; with `modify` the rule changes a
/// peripheral and its interrupts and address blocks are not read here.
#[verifier::rlimit(40)]
pub fn make_peripheral(padd: &YamlHash, modify: bool) -> (r: Result<PeriphPatch, PatchError>)
    ensures
        r matches Ok(b) ==> {
            &&& opt_view(b.name) == text_entry(padd.view_pairs(), k_name())->Ok_0
            &&& opt_view(b.description) == text_entry(padd.view_pairs(), k_description())->Ok_0
            &&& opt_view(b.derived_from) == text_entry(padd.view_pairs(), k_derived_from())->Ok_0
            &&& modify ==> b.interrupt is None && b.address_block is None
        },
{
    proof {
        reveal_strlit("name");
        reveal_strlit("description");
        reveal_strlit("derivedFrom");
        assert("name"@ =~= k_name());
        assert("description"@ =~= k_description());
        assert("derivedFrom"@ =~= k_derived_from());
    }
    let display_name = opt_string(yerr(padd.get_str("displayName"))?);
    let version = opt_string(yerr(padd.get_str("version"))?);
    let description = opt_string(yerr(padd.get_str("description"))?);
    let derived_from = opt_string(yerr(padd.get_str("derivedFrom"))?);
    let group_name = opt_string(yerr(padd.get_str("groupName"))?);
    let interrupt = if !modify {
        match yerr(padd.get_hash("interrupts"))? {
            Some(h) => Some(make_interrupts(h)?),
            None => None,
        }
    } else {
        None
    };
    let name = opt_string(yerr(padd.get_str("name"))?);
    let base_address = match yerr(padd.get_i64("baseAddress"))? {
        Some(i) => Some(#[verifier::truncate] (i as u64)),
        None => None,
    };
    let mut b = PeriphPatch {
        name,
        display_name,
        version,
        description,
        derived_from,
        group_name,
        base_address,
        interrupt,
        default_register_properties: RegisterProperties {
            size: None,
            access: None,
            protection: None,
            reset_value: None,
            reset_mask: None,
        },
        address_block: None,
        registers: None,
    };
    if b.derived_from.is_some() {
        return Ok(b);
    }
    b.default_register_properties = get_register_properties(padd)?;
    if !modify {
        b.address_block = match padd.get_hash("addressBlock") {
            Ok(Some(h)) => {
                let p = make_address_block(h)?;
                let mut v: Vec<AddressBlock> = Vec::new();
                v.push(build_address_block(&p)?);
                Some(v)
            },
            _ => match padd.get_vec("addressBlocks") {
                Ok(Some(v)) => Some(make_address_blocks(v)?),
                _ => None,
            },
        };
    }
    b.registers = match yerr(padd.get_hash("registers"))? {
        Some(h) => Some(build_registers(h)?),
        None => None,
    };
    Ok(b)
}

fn set_opt(old: Option<String>, new: Option<String>) -> (r: Option<String>)
    ensures
        opt_view(r) == set_text(opt_view(old), opt_view(new)),
{
    match new {
        Some(t) => if t.as_str().unicode_len() == 0 {
            None
        } else {
            Some(t)
        },
        None => old,
    }
}

/// `out` is peripheral `a` changed as the rule `b` says
/// (`PeripheralInfo::modify_from`).
pub open spec fn periph_patched(a: Peripheral, b: PeriphPatch, out: Peripheral) -> bool {
    &&& out.name@ == match b.name {
        Some(n) => n@,
        None => a.name@,
    }
    &&& opt_view(out.display_name) == set_text(opt_view(a.display_name), opt_view(b.display_name))
    &&& opt_view(out.version) == set_text(opt_view(a.version), opt_view(b.version))
    &&& opt_view(out.description) == set_text(opt_view(a.description), opt_view(b.description))
    &&& opt_view(out.group_name) == set_text(opt_view(a.group_name), opt_view(b.group_name))
    &&& out.alternate_peripheral == a.alternate_peripheral
    &&& out.prepend_to_name == a.prepend_to_name
    &&& out.append_to_name == a.append_to_name
    &&& out.header_struct_name == a.header_struct_name
    &&& out.base_address == match b.base_address {
        Some(x) => x,
        None => a.base_address,
    }
    &&& out.interrupt == match b.interrupt {
        Some(v) => v,
        None => a.interrupt,
    }
    &&& out.dim == a.dim
    &&& if b.derived_from is Some {
        &&& opt_view(out.derived_from) == opt_view(b.derived_from)
        &&& out.registers is None
        &&& out.address_block is None
        &&& out.default_register_properties == crate::patch::reg_builders::no_props()
    } else {
        &&& out.derived_from == a.derived_from
        &&& out.address_block == if b.address_block is Some { b.address_block } else { a.address_block }
        &&& out.default_register_properties == props_merged(
            a.default_register_properties,
            b.default_register_properties,
        )
        &&& out.registers == match b.registers {
            Some(v) => if v@.len() == 0 {
                None
            } else {
                Some(v)
            },
            None => a.registers,
        }
    }
}

impl Peripheral {
    /// Changes this peripheral as the rule `b` says (see [`periph_patched`]).
    pub fn modify_from(&mut self, b: PeriphPatch) -> (r: Result<(), PatchError>)
        ensures
            r is Ok <==> (b.derived_from is Some || reset_fits(
                props_merged(old(self).default_register_properties, b.default_register_properties),
            )),
            r is Ok ==> periph_patched(*old(self), b, *final(self)),
            r is Err ==> failed_with(r, PatchErrorKind::Invalid),
    {
        let PeriphPatch {
            name,
            display_name,
            version,
            description,
            derived_from,
            group_name,
            base_address,
            interrupt,
            default_register_properties,
            address_block,
            registers,
        } = b;
        if derived_from.is_none() {
            let merged = merge_props(&self.default_register_properties, &default_register_properties);
            if !check_reset(&merged) {
                return Err(PatchError::Invalid(self.name.clone()));
            }
        }
        match name {
            Some(n) => {
                self.name = n;
            },
            None => {},
        }
        let t = self.display_name.take();
        self.display_name = set_opt(t, display_name);
        let t = self.version.take();
        self.version = set_opt(t, version);
        let t = self.description.take();
        self.description = set_opt(t, description);
        let t = self.group_name.take();
        self.group_name = set_opt(t, group_name);
        match base_address {
            Some(x) => {
                self.base_address = x;
            },
            None => {},
        }
        match interrupt {
            Some(v) => {
                self.interrupt = v;
            },
            None => {},
        }
        if derived_from.is_some() {
            self.derived_from = derived_from;
            self.registers = None;
            self.address_block = None;
            self.default_register_properties = RegisterProperties {
                size: None,
                access: None,
                protection: None,
                reset_value: None,
                reset_mask: None,
            };
        } else {
            if address_block.is_some() {
                self.address_block = address_block;
            }
            self.default_register_properties = merge_props(&self.default_register_properties, &default_register_properties);
            match registers {
                Some(v) => {
                    self.registers = if v.len() == 0 {
                        None
                    } else {
                        Some(v)
                    };
                },
                None => {},
            }
        }
        Ok(())
    }
}

/// Builds the peripheral that `b` describes under the name `name`
/// (`PeripheralInfoBuilder::build`): the base address has to be given and
/// the reset value has to fit in the size.
pub fn build_peripheral(b: PeriphPatch, name: &str) -> (r: Result<Peripheral, PatchError>)
    ensures
        r is Ok <==> (b.base_address is Some && reset_fits(b.default_register_properties)),
        r matches Ok(p) ==> p.name@ == name@ && p.base_address == b.base_address.unwrap() && p.dim is None,
{
    let PeriphPatch {
        name: _,
        display_name,
        version,
        description,
        derived_from,
        group_name,
        base_address,
        interrupt,
        default_register_properties,
        address_block,
        registers,
    } = b;
    let base = match base_address {
        Some(x) => x,
        None => {
            return Err(PatchError::Invalid(copy_str(name)));
        },
    };
    if !check_reset(&default_register_properties) {
        return Err(PatchError::Invalid(copy_str(name)));
    }
    Ok(
        Peripheral {
            name: copy_str(name),
            display_name: set_opt(None, display_name),
            version: set_opt(None, version),
            description: set_opt(None, description),
            alternate_peripheral: None,
            group_name: set_opt(None, group_name),
            prepend_to_name: None,
            append_to_name: None,
            header_struct_name: None,
            base_address: base,
            default_register_properties,
            address_block,
            interrupt: match interrupt {
                Some(v) => v,
                None => Vec::new(),
            },
            registers,
            derived_from,
            dim: None,
        },
    )
}

/// The byte order spelled as in a description file.
pub open spec fn endian_of_text(s: Seq<char>) -> Option<Endian> {
    if s == seq!['l', 'i', 't', 't', 'l', 'e'] {
        Some(Endian::Little)
    } else if s == seq!['b', 'i', 'g'] {
        Some(Endian::Big)
    } else if s == seq!['s', 'e', 'l', 'e', 'c', 't', 'a', 'b', 'l', 'e'] {
        Some(Endian::Selectable)
    } else if s == seq!['o', 't', 'h', 'e', 'r'] {
        Some(Endian::Other)
    } else {
        None
    }
}

/// Reads a byte order (`Endian::parse_str`).
pub fn parse_endian(s: &str) -> (r: Option<Endian>)
    ensures
        r == endian_of_text(s@),
{
    proof {
        reveal_strlit("little");
        reveal_strlit("big");
        reveal_strlit("selectable");
        reveal_strlit("other");
        assert("little"@ =~= seq!['l', 'i', 't', 't', 'l', 'e']);
        assert("big"@ =~= seq!['b', 'i', 'g']);
        assert("selectable"@ =~= seq!['s', 'e', 'l', 'e', 'c', 't', 'a', 'b', 'l', 'e']);
        assert("other"@ =~= seq!['o', 't', 'h', 'e', 'r']);
    }
    if str_eq(s, "little") {
        Some(Endian::Little)
    } else if str_eq(s, "big") {
        Some(Endian::Big)
    } else if str_eq(s, "selectable") {
        Some(Endian::Selectable)
    } else if str_eq(s, "other") {
        Some(Endian::Other)
    } else {
        None
    }
}

/// What a processor rule sets.
pub struct CpuPatch {
    pub name: Option<String>,
    pub revision: Option<String>,
    pub endian: Option<Endian>,
    pub mpu_present: Option<bool>,
    pub fpu_present: Option<bool>,
    pub fpu_double_precision: Option<bool>,
    pub dsp_present: Option<bool>,
    pub icache_present: Option<bool>,
    pub dcache_present: Option<bool>,
    pub itcm_present: Option<bool>,
    pub dtcm_present: Option<bool>,
    pub vtor_present: Option<bool>,
    pub nvic_priority_bits: Option<u32>,
    pub has_vendor_systick: Option<bool>,
    pub device_num_interrupts: Option<u32>,
    pub sau_num_regions: Option<u32>,
}

fn get_u32_opt(h: &YamlHash, k: &str) -> (r: Result<Option<u32>, PatchError>) {
    match yerr(h.get_i64(k))? {
        Some(i) => Ok(Some(#[verifier::truncate] (i as u32))),
        None => Ok(None),
    }
}

/// Reads a processor rule.
pub fn make_cpu(cmod: &YamlHash) -> (r: Result<CpuPatch, PatchError>) {
    let fpu_double_precision = yerr(cmod.get_bool("fpuDP"))?;
    let dsp_present = yerr(cmod.get_bool("dspPresent"))?;
    let icache_present = yerr(cmod.get_bool("icachePresent"))?;
    let dcache_present = yerr(cmod.get_bool("dcachePresent"))?;
    let itcm_present = yerr(cmod.get_bool("itcmPresent"))?;
    let dtcm_present = yerr(cmod.get_bool("dtcmPresent"))?;
    let vtor_present = yerr(cmod.get_bool("vtorPresent"))?;
    let device_num_interrupts = get_u32_opt(cmod, "deviceNumInterrupts")?;
    let sau_num_regions = get_u32_opt(cmod, "sauNumRegions")?;
    let name = opt_string(yerr(cmod.get_str("name"))?);
    let revision = opt_string(yerr(cmod.get_str("revision"))?);
    let endian = match yerr(cmod.get_str("endian"))? {
        Some(t) => parse_endian(t),
        None => None,
    };
    let mpu_present = yerr(cmod.get_bool("mpuPresent"))?;
    let fpu_present = yerr(cmod.get_bool("fpuPresent"))?;
    let nvic_priority_bits = get_u32_opt(cmod, "nvicPrioBits")?;
    let has_vendor_systick = yerr(cmod.get_bool("vendorSystickConfig"))?;
    Ok(
        CpuPatch {
            name,
            revision,
            endian,
            mpu_present,
            fpu_present,
            fpu_double_precision,
            dsp_present,
            icache_present,
            dcache_present,
            itcm_present,
            dtcm_present,
            vtor_present,
            nvic_priority_bits,
            has_vendor_systick,
            device_num_interrupts,
            sau_num_regions,
        },
    )
}

/// A flag that a rule sets, or the old one.
pub open spec fn set_opt_flag(old: Option<bool>, new: Option<bool>) -> Option<bool> {
    if new is Some {
        new
    } else {
        old
    }
}

/// `out` is processor `a` changed as `p` says (`Cpu::modify_from`).
pub open spec fn cpu_patched(a: Cpu, p: CpuPatch, out: Cpu) -> bool {
    &&& out.name@ == match p.name {
        Some(n) => n@,
        None => a.name@,
    }
    &&& out.revision@ == match p.revision {
        Some(n) => n@,
        None => a.revision@,
    }
    &&& out.endian == match p.endian {
        Some(e) => e,
        None => a.endian,
    }
    &&& out.mpu_present == match p.mpu_present {
        Some(e) => e,
        None => a.mpu_present,
    }
    &&& out.fpu_present == match p.fpu_present {
        Some(e) => e,
        None => a.fpu_present,
    }
    &&& out.fpu_double_precision == set_opt_flag(a.fpu_double_precision, p.fpu_double_precision)
    &&& out.dsp_present == set_opt_flag(a.dsp_present, p.dsp_present)
    &&& out.icache_present == set_opt_flag(a.icache_present, p.icache_present)
    &&& out.dcache_present == set_opt_flag(a.dcache_present, p.dcache_present)
    &&& out.itcm_present == set_opt_flag(a.itcm_present, p.itcm_present)
    &&& out.dtcm_present == set_opt_flag(a.dtcm_present, p.dtcm_present)
    &&& out.vtor_present == set_opt_flag(a.vtor_present, p.vtor_present)
    &&& out.nvic_priority_bits == match p.nvic_priority_bits {
        Some(e) => e,
        None => a.nvic_priority_bits,
    }
    &&& out.has_vendor_systick == match p.has_vendor_systick {
        Some(e) => e,
        None => a.has_vendor_systick,
    }
    &&& out.device_num_interrupts == if p.device_num_interrupts is Some {
        p.device_num_interrupts
    } else {
        a.device_num_interrupts
    }
    &&& out.sau_num_regions == if p.sau_num_regions is Some {
        p.sau_num_regions
    } else {
        a.sau_num_regions
    }
}

impl Cpu {
    /// Changes this processor as `p` says (see [`cpu_patched`]).
    pub fn modify_from(&mut self, p: CpuPatch)
        ensures
            cpu_patched(*old(self), p, *final(self)),
    {
        let ghost pp = p;
        let CpuPatch {
            name,
            revision,
            endian,
            mpu_present,
            fpu_present,
            fpu_double_precision,
            dsp_present,
            icache_present,
            dcache_present,
            itcm_present,
            dtcm_present,
            vtor_present,
            nvic_priority_bits,
            has_vendor_systick,
            device_num_interrupts,
            sau_num_regions,
        } = p;
        let new_name = match name {
            Some(n) => n,
            None => copy_str(self.name.as_str()),
        };
        let new_revision = match revision {
            Some(n) => n,
            None => copy_str(self.revision.as_str()),
        };
        *self = Cpu {
            name: new_name,
            revision: new_revision,
            endian: match endian {
                Some(e) => e,
                None => self.endian,
            },
            mpu_present: match mpu_present {
                Some(e) => e,
                None => self.mpu_present,
            },
            fpu_present: match fpu_present {
                Some(e) => e,
                None => self.fpu_present,
            },
            fpu_double_precision: if fpu_double_precision.is_some() { fpu_double_precision } else { self.fpu_double_precision },
            dsp_present: if dsp_present.is_some() { dsp_present } else { self.dsp_present },
            icache_present: if icache_present.is_some() { icache_present } else { self.icache_present },
            dcache_present: if dcache_present.is_some() { dcache_present } else { self.dcache_present },
            itcm_present: if itcm_present.is_some() { itcm_present } else { self.itcm_present },
            dtcm_present: if dtcm_present.is_some() { dtcm_present } else { self.dtcm_present },
            vtor_present: if vtor_present.is_some() { vtor_present } else { self.vtor_present },
            nvic_priority_bits: match nvic_priority_bits {
                Some(e) => e,
                None => self.nvic_priority_bits,
            },
            has_vendor_systick: match has_vendor_systick {
                Some(e) => e,
                None => self.has_vendor_systick,
            },
            device_num_interrupts: if device_num_interrupts.is_some() { device_num_interrupts } else { self.device_num_interrupts },
            sau_num_regions: if sau_num_regions.is_some() { sau_num_regions } else { self.sau_num_regions },
        };
    }
}

/// Builds the processor that `p` describes (`CpuBuilder::build`): name,
/// revision, byte order, MPU and FPU presence, priority bits and the vendor
/// SysTick flag have to be given.
pub fn build_cpu(p: CpuPatch) -> (r: Result<Cpu, PatchError>)
    ensures
        r is Ok <==> (p.name is Some && p.revision is Some && p.endian is Some && p.mpu_present is Some
            && p.fpu_present is Some && p.nvic_priority_bits is Some && p.has_vendor_systick is Some),
{
    match (p.name, p.revision, p.endian, p.mpu_present, p.fpu_present, p.nvic_priority_bits, p.has_vendor_systick) {
        (Some(name), Some(revision), Some(endian), Some(mpu_present), Some(fpu_present), Some(nvic_priority_bits), Some(
            has_vendor_systick,
        )) => Ok(
            Cpu {
                name,
                revision,
                endian,
                mpu_present,
                fpu_present,
                fpu_double_precision: p.fpu_double_precision,
                dsp_present: p.dsp_present,
                icache_present: p.icache_present,
                dcache_present: p.dcache_present,
                itcm_present: p.itcm_present,
                dtcm_present: p.dtcm_present,
                vtor_present: p.vtor_present,
                nvic_priority_bits,
                has_vendor_systick,
                device_num_interrupts: p.device_num_interrupts,
                sau_num_regions: p.sau_num_regions,
            },
        ),
        _ => Err(PatchError::Invalid(copy_str("cpu"))),
    }
}

/// The test that keeps the peripherals that `pspec` does not select.
pub open spec fn keep_periph(pspec: Seq<char>) -> spec_fn(Peripheral) -> bool {
    |p: Peripheral| !name_matches(p.name@, pspec)
}

/// Every glob needed to match the peripheral names against `pspec` compiles.
pub open spec fn periph_names_compile(ps: Seq<Peripheral>, pspec: Seq<char>) -> bool {
    forall|i: int| 0 <= i < ps.len() ==> spec_compiles_for(#[trigger] ps[i].name@, pspec)
}

/// `b` is device `a` with, at most, other peripherals.
pub open spec fn same_but_peripherals(a: Device, b: Device) -> bool {
    b == Device { peripherals: b.peripherals, ..a }
}

/// Which peripherals `pspec` selects, leaving out derived ones when
/// `check_derived`; `None` when a glob does not compile.
fn periph_flags(ps: &Vec<Peripheral>, pspec: &str, check_derived: bool) -> (r: Option<Vec<bool>>)
    ensures
        r is None <==> !periph_names_compile(ps@, pspec@),
        r matches Some(v) ==> v@.len() == ps@.len() && forall|i: int|
            0 <= i < ps@.len() ==> v@[i] == (name_matches(#[trigger] ps@[i].name@, pspec@) && !(check_derived
                && ps@[i].derived_from is Some)),
{
    let mut out: Vec<bool> = Vec::new();
    let mut i: usize = 0;
    while i < ps.len()
        invariant
            i <= ps@.len(),
            out@.len() == i,
            forall|j: int| 0 <= j < i ==> spec_compiles_for(#[trigger] ps@[j].name@, pspec@),
            forall|j: int|
                0 <= j < i ==> out@[j] == (name_matches(#[trigger] ps@[j].name@, pspec@) && !(check_derived
                    && ps@[j].derived_from is Some)),
        decreases ps.len() - i,
    {
        match try_matchname(ps[i].name.as_str(), pspec) {
            None => {
                return None;
            },
            Some(b) => {
                out.push(b && !(check_derived && ps[i].derived_from.is_some()));
            },
        }
        i = i + 1;
    }
    Some(out)
}

impl Device {
    /// Delete the peripherals that `pspec` selects.
    pub fn delete_peripheral(&mut self, pspec: &str) -> (r: Result<(), PatchError>)
        ensures
            r is Err <==> !periph_names_compile(old(self).peripherals@, pspec@),
            r is Err ==> failed_with(r, PatchErrorKind::InvalidSpec) && *final(self) == *old(self),
            r is Ok ==> same_but_peripherals(*old(self), *final(self)) && final(self).peripherals@
                == old(self).peripherals@.filter(keep_periph(pspec@)),
    {
        let flags = match periph_flags(&self.peripherals, pspec, false) {
            None => {
                return Err(PatchError::InvalidSpec(copy_str(pspec)));
            },
            Some(f) => f,
        };
        let ghost orig = self.peripherals@;
        let ghost keep = keep_periph(pspec@);
        let mut v: Vec<Peripheral> = Vec::new();
        std::mem::swap(&mut v, &mut self.peripherals);
        let mut kept: Vec<Peripheral> = Vec::new();
        let n = v.len();
        let mut j: usize = 0;
        while j < n
            invariant
                n == orig.len(),
                flags@.len() == n,
                forall|q: int| 0 <= q < n ==> flags@[q] == !keep(#[trigger] orig[q]),
                keep == keep_periph(pspec@),
                j <= n,
                v@ == orig.skip(j as int),
                kept@ == orig.take(j as int).filter(keep),
            decreases n - j,
        {
            assert(v@[0] == orig[j as int]);
            let x = v.remove(0);
            proof {
                orig.take(j as int).lemma_filter_push(orig[j as int], keep);
                assert(orig.take(j + 1) =~= orig.take(j as int).push(orig[j as int]));
                assert(flags@[j as int] == !keep(orig[j as int]));
            }
            if !flags[j] {
                kept.push(x);
            }
            j = j + 1;
            assert(v@ =~= orig.skip(j as int));
        }
        assert(orig.take(j as int) =~= orig);
        self.peripherals = kept;
        Ok(())
    }

    fn find_peripheral(&self, name: &str) -> (r: Option<usize>)
        ensures
            r matches Some(i) ==> i < self.peripherals@.len() && self.peripherals@[i as int].name@ == name@
                && forall|j: int| 0 <= j < i ==> #[trigger] self.peripherals@[j].name@ != name@,
            r is None ==> forall|i: int| 0 <= i < self.peripherals@.len() ==> #[trigger] self.peripherals@[i].name@ != name@,
    {
        let mut i: usize = 0;
        while i < self.peripherals.len()
            invariant
                i <= self.peripherals@.len(),
                forall|j: int| 0 <= j < i ==> #[trigger] self.peripherals@[j].name@ != name@,
            decreases self.peripherals.len() - i,
        {
            if str_eq(self.peripherals[i].name.as_str(), name) {
                return Some(i);
            }
            i = i + 1;
        }
        None
    }

    /// Add pname given by padd to device
    pub fn add_peripheral(&mut self, pname: &str, padd: &YamlHash) -> (r: Result<(), PatchError>)
        ensures
            (exists|i: int| 0 <= i < old(self).peripherals@.len() && #[trigger] old(self).peripherals@[i].name@ == pname@)
                ==> failed_with(r, PatchErrorKind::AlreadyExists),
            r is Err ==> *final(self) == *old(self),
            r is Ok ==> same_but_peripherals(*old(self), *final(self)) && final(self).peripherals@.len()
                == old(self).peripherals@.len() + 1 && final(self).peripherals@.drop_last() == old(self).peripherals@
                && final(self).peripherals@.last().name@ == pname@,
    {
        if self.find_peripheral(pname).is_some() {
            return Err(PatchError::AlreadyExists(copy_str(pname)));
        }
        let b = make_peripheral(padd, false)?;
        let p = build_peripheral(b, pname)?;
        let ghost before = self.peripherals@;
        self.peripherals.push(p);
        assert(self.peripherals@.drop_last() =~= before);
        Ok(())
    }

    /// Modify the `cpu` node inside `device` according to `mod`
    pub fn modify_cpu(&mut self, cmod: &YamlHash) -> (r: Result<(), PatchError>)
        ensures
            final(self).peripherals == old(self).peripherals,
            final(self).name == old(self).name,
    {
        let p = make_cpu(cmod)?;
        match self.cpu.take() {
            Some(mut c) => {
                c.modify_from(p);
                self.cpu = Some(c);
                Ok(())
            },
            None => {
                let c = build_cpu(p)?;
                self.cpu = Some(c);
                Ok(())
            },
        }
    }
}

/// Interrupt `a` with what the rule `p` sets: its name, description and
/// value where `p` gives them.
pub open spec fn irq_apply(a: InterruptV, p: IrqPatchV) -> InterruptV {
    InterruptV {
        name: match p.name {
            Some(n) => n,
            None => a.name,
        },
        description: if p.description is Some {
            p.description
        } else {
            a.description
        },
        value: match p.value {
            Some(v) => v,
            None => a.value,
        },
    }
}

/// The place of the first interrupt of `is`, from `j` on, called `n`.
pub open spec fn irq_index(is: Seq<InterruptV>, n: Seq<char>, j: int) -> Option<int>
    decreases is.len() - j,
{
    if j < 0 || j >= is.len() {
        None
    } else if is[j].name == n {
        Some(j)
    } else {
        irq_index(is, n, j + 1)
    }
}

/// The interrupt rule of one entry of a peripheral's `interrupts` mapping:
/// the name it looks for and what it sets.
pub open spec fn irq_rule_of(e: (YamlV, YamlV)) -> (Seq<char>, IrqPatchV) {
    let none = IrqPatchV { name: None, description: None, value: None };
    (
        match e.0 {
            YamlV::Str(n) => n,
            _ => Seq::empty(),
        },
        match e.1 {
            YamlV::Hash(h) => match irq_patch_spec(h) {
                Ok(v) => v,
                Err(_) => none,
            },
            _ => none,
        },
    )
}

/// The interrupts `is` after the rules `rules` in turn: each changes the
/// first interrupt with the name it looks for, if there is one.
pub open spec fn irq_mods(is: Seq<InterruptV>, rules: Seq<(YamlV, YamlV)>) -> Seq<InterruptV>
    decreases rules.len(),
{
    if rules.len() == 0 {
        is
    } else {
        let m = irq_mods(is, rules.drop_last());
        let (n, p) = irq_rule_of(rules.last());
        match irq_index(m, n, 0) {
            Some(j) => m.update(j, irq_apply(m[j], p)),
            None => m,
        }
    }
}

/// The key `interrupts`.
pub open spec fn k_interrupts_list() -> Seq<char> {
    seq!['i', 'n', 't', 'e', 'r', 'r', 'u', 'p', 't', 's']
}

/// The interrupts of a peripheral `is` after the device's modify rule
/// `pmod` for it: the rules of its `interrupts` mapping, if it has one.
pub open spec fn periph_irqs_modified(is: Seq<InterruptV>, pmod: Seq<(YamlV, YamlV)>) -> Seq<InterruptV> {
    match entry(pmod, k_interrupts_list()) {
        Some(YamlV::Hash(ints)) => irq_mods(is, ints),
        _ => is,
    }
}

/// A rule of the `interrupts` mapping changes the first interrupt with the
/// name that it gives, as far as the rule says (name, description, value),
/// and no other; with no interrupt of that name nothing changes.
pub proof fn law_interrupt_rule(is: Seq<InterruptV>, n: Seq<char>, rule: Seq<(YamlV, YamlV)>)
    requires
        irq_patch_spec(rule) is Ok,
    ensures
        ({
            let out = irq_mods(is, seq![(YamlV::Str(n), YamlV::Hash(rule))]);
            let p = irq_patch_spec(rule)->Ok_0;
            &&& out.len() == is.len()
            &&& forall|j: int|
                0 <= j < is.len() ==> if is[j].name == n && (forall|q: int| 0 <= q < j ==> is[q].name != n) {
                    irq_patched(is[j], p, #[trigger] out[j])
                } else {
                    out[j] == is[j]
                }
        }),
{
    let rules = seq![(YamlV::Str(n), YamlV::Hash(rule))];
    assert(rules.drop_last() =~= Seq::<(YamlV, YamlV)>::empty());
    assert(rules.last() == (YamlV::Str(n), YamlV::Hash(rule)));
    let p = irq_patch_spec(rule)->Ok_0;
    assert(irq_rule_of(rules.last()) == (n, p));
    let out = irq_mods(is, rules);
    assert(irq_mods(is, rules.drop_last()) == is);
    assert(out == match irq_index(is, n, 0) {
        Some(j) => is.update(j, irq_apply(is[j], p)),
        None => is,
    });
    lemma_irq_index_range(is, n, 0);
    assert forall|j: int| 0 <= j < is.len() implies (if is[j].name == n && (forall|q: int| 0 <= q < j ==> is[q].name != n) {
        irq_patched(is[j], p, #[trigger] out[j])
    } else {
        out[j] == is[j]
    }) by {
        lemma_irq_index_first(is, n, 0, j);
    }
}

/// What `irq_index` finds lies at or after `from` and in the list.
proof fn lemma_irq_index_range(is: Seq<InterruptV>, n: Seq<char>, from: int)
    ensures
        irq_index(is, n, from) matches Some(j) ==> from <= j < is.len() && is[j].name == n,
    decreases is.len() - from,
{
    if 0 <= from < is.len() && is[from].name != n {
        lemma_irq_index_range(is, n, from + 1);
    }
}

/// `irq_index` finds the first interrupt with the name from `from` on.
proof fn lemma_irq_index_first(is: Seq<InterruptV>, n: Seq<char>, from: int, j: int)
    requires
        0 <= from <= j < is.len(),
    ensures
        (is[j].name == n && (forall|q: int| from <= q < j ==> is[q].name != n)) == (irq_index(is, n, from) == Some(j)),
    decreases j - from,
{
    lemma_irq_index_range(is, n, from + 1);
    if from < j {
        lemma_irq_index_first(is, n, from + 1, j);
        if is[from].name != n {
            assert((forall|q: int| from <= q < j ==> is[q].name != n) == (forall|q: int| from + 1 <= q < j ==> is[q].name != n));
        }
    }
}

/// Applies an interrupt rule to interrupt `x` (`Interrupt::modify_from`).
fn apply_irq_patch(x: &mut Interrupt, p: &IrqPatch)
    ensures
        final(x)@ == irq_apply(old(x)@, p@),
{
    match &p.name {
        Some(n) => {
            x.name = copy_str(n.as_str());
        },
        None => {},
    }
    match &p.description {
        Some(d) => {
            x.description = Some(copy_str(d.as_str()));
        },
        None => {},
    }
    match p.value {
        Some(v) => {
            x.value = v;
        },
        None => {},
    }
}

/// Changes one peripheral as the device rule `pmod` says: its own
/// properties, then the interrupts it names, then its address blocks.
#[verifier::loop_isolation(false)]
fn modify_one_peripheral(p: &mut Peripheral, pmod: &YamlHash) -> (r: Result<(), PatchError>)
    ensures
        r is Ok ==> irq_views(final(p).interrupt@) == periph_irqs_modified(irq_views(old(p).interrupt@), pmod.view_pairs()),
{
    broadcast use crate::patch::yaml::group_yaml_views;
    proof {
        reveal_strlit("interrupts");
        assert("interrupts"@ =~= k_interrupts_list());
    }
    let b = make_peripheral(pmod, true)?;
    p.modify_from(b)?;
    let ghost start = irq_views(p.interrupt@);
    match yerr(pmod.get_hash("interrupts"))? {
        Some(ints) => {
            let ghost iv = ints.view_pairs();
            let mut k: usize = 0;
            assert(iv.take(0) =~= Seq::<(YamlV, YamlV)>::empty());
            while k < ints.entries.len()
                invariant
                    k <= ints.entries@.len(),
                    iv == ints.view_pairs(),
                    iv.len() == ints.entries@.len(),
                    irq_views(p.interrupt@) == irq_mods(start, iv.take(k as int)),
                decreases ints.entries.len() - k,
            {
                assert(iv.take(k + 1).drop_last() =~= iv.take(k as int));
                assert(iv.take(k + 1).last() == iv[k as int]);
                assert(iv[k as int] == (yv(ints.entries@[k as int].0), yv(ints.entries@[k as int].1)));
                let iname = yerr(ints.entries[k].0.str())?;
                let ih = yerr(ints.entries[k].1.hash())?;
                let ip = make_interrupt(ih)?;
                assert(irq_rule_of(iv[k as int]) == (iname@, ip@));
                let ghost m = irq_views(p.interrupt@);
                let mut j: usize = 0;
                while j < p.interrupt.len()
                    invariant
                        j <= p.interrupt@.len(),
                        m == irq_views(p.interrupt@),
                        irq_index(m, iname@, 0) == irq_index(m, iname@, j as int),
                    decreases p.interrupt.len() - j,
                {
                    if str_eq(p.interrupt[j].name.as_str(), iname) {
                        let ghost before = p.interrupt@;
                        let mut x = p.interrupt.remove(j);
                        apply_irq_patch(&mut x, &ip);
                        p.interrupt.insert(j, x);
                        assert(irq_views(p.interrupt@) =~= m.update(j as int, irq_apply(m[j as int], ip@)));
                        break;
                    }
                    j = j + 1;
                }
                k = k + 1;
            }
            assert(iv.take(k as int) =~= iv);
        },
        None => {},
    }
    match pmod.get_hash("addressBlock") {
        Ok(Some(abmod)) => {
            let ab = make_address_block(abmod)?;
            let single = match &p.address_block {
                Some(v) => v.len() == 1,
                None => false,
            };
            if single {
                let mut v = match p.address_block.take() {
                    Some(v) => v,
                    None => Vec::new(),
                };
                if v.len() == 1 {
                    let mut a = v.remove(0);
                    modify_address_block(&mut a, &ab);
                    v.push(a);
                }
                p.address_block = Some(v);
            } else {
                let mut v: Vec<AddressBlock> = Vec::new();
                v.push(build_address_block(&ab)?);
                p.address_block = Some(v);
            }
        },
        _ => match pmod.get_vec("addressBlocks") {
            Ok(Some(abs)) => {
                p.address_block = Some(make_address_blocks(abs)?);
            },
            _ => {},
        },
    }
    Ok(())
}

/// The device's `_delete` rule, one peripheral specification after another:
/// whether all of them went through, and the peripherals left (after a
/// failure, those left by the deletions before it).
pub open spec fn periph_deletes(ps: Seq<Peripheral>, specs: Seq<Seq<char>>) -> (bool, Seq<Peripheral>)
    decreases specs.len(),
{
    if specs.len() == 0 {
        (true, ps)
    } else {
        let (ok, q) = periph_deletes(ps, specs.drop_last());
        if !ok {
            (false, q)
        } else if !periph_names_compile(q, specs.last()) {
            (false, q)
        } else {
            (true, q.filter(keep_periph(specs.last())))
        }
    }
}

/// Once a deletion has failed, the later ones change nothing.
proof fn lemma_periph_deletes_stuck(ps: Seq<Peripheral>, specs: Seq<Seq<char>>, j: int)
    requires
        0 <= j <= specs.len(),
        !periph_deletes(ps, specs.take(j)).0,
    ensures
        periph_deletes(ps, specs) == periph_deletes(ps, specs.take(j)),
    decreases specs.len(),
{
    if j < specs.len() {
        assert(specs.drop_last().take(j) =~= specs.take(j));
        lemma_periph_deletes_stuck(ps, specs.drop_last(), j);
    } else {
        assert(specs.take(j) =~= specs);
    }
}

/// The peripheral specifications that the device's `_delete` lists.
pub open spec fn device_deletes(device: Seq<(YamlV, YamlV)>) -> Seq<Seq<char>> {
    match entry(device, seq!['_', 'd', 'e', 'l', 'e', 't', 'e']) {
        Some(v) => str_items(v),
        None => Seq::empty(),
    }
}

impl Device {
    /// Modify pspec inside device according to pmod; derived peripherals are
    /// left alone.
    pub fn modify_peripheral(&mut self, pspec: &str, pmod: &YamlHash) -> (r: Result<(), PatchError>)
        ensures
            same_but_peripherals(*old(self), *final(self)),
            !periph_names_compile(old(self).peripherals@, pspec@) ==> failed_with(r, PatchErrorKind::InvalidSpec),
            r is Ok ==> final(self).peripherals@.len() == old(self).peripherals@.len() && forall|i: int|
                0 <= i < old(self).peripherals@.len() && !(name_matches(#[trigger] old(self).peripherals@[i].name@, pspec@)
                    && old(self).peripherals@[i].derived_from is None) ==> final(self).peripherals@[i]
                    == old(self).peripherals@[i],
            r is Ok ==> forall|i: int|
                0 <= i < old(self).peripherals@.len() && name_matches(#[trigger] old(self).peripherals@[i].name@, pspec@)
                    && old(self).peripherals@[i].derived_from is None ==> irq_views(final(self).peripherals@[i].interrupt@)
                    == periph_irqs_modified(irq_views(old(self).peripherals@[i].interrupt@), pmod.view_pairs()),
    {
        let flags = match periph_flags(&self.peripherals, pspec, true) {
            None => {
                return Err(PatchError::InvalidSpec(copy_str(pspec)));
            },
            Some(f) => f,
        };
        let ghost orig = self.peripherals@;
        let n = self.peripherals.len();
        let mut i: usize = 0;
        while i < n
            invariant
                n == orig.len(),
                self.peripherals@.len() == n,
                flags@.len() == n,
                forall|q: int|
                    0 <= q < n ==> flags@[q] == (name_matches(#[trigger] orig[q].name@, pspec@) && !(true
                        && orig[q].derived_from is Some)),
                forall|q: int| 0 <= q < n && !flags@[q] ==> #[trigger] self.peripherals@[q] == orig[q],
                i <= n,
                orig == old(self).peripherals@,
                forall|q: int| i <= q < n ==> #[trigger] self.peripherals@[q] == orig[q],
                forall|q: int|
                    0 <= q < i && flags@[q] ==> irq_views(#[trigger] self.peripherals@[q].interrupt@) == periph_irqs_modified(
                        irq_views(orig[q].interrupt@),
                        pmod.view_pairs(),
                    ),
                same_but_peripherals(*old(self), *self),
                periph_names_compile(old(self).peripherals@, pspec@),
            decreases n - i,
        {
            if flags[i] {
                let ghost before = self.peripherals@;
                assert(before[i as int] == orig[i as int]);
                let mut p = self.peripherals.remove(i);
                let res = modify_one_peripheral(&mut p, pmod);
                self.peripherals.insert(i, p);
                assert(self.peripherals@ =~= before.update(i as int, p));
                res?;
                assert(irq_views(self.peripherals@[i as int].interrupt@) == periph_irqs_modified(
                    irq_views(orig[i as int].interrupt@),
                    pmod.view_pairs(),
                ));
            }
            i = i + 1;
        }
        Ok(())
    }

    /// Marks `pname` as derived from `pderive`, dropping its registers, and
    /// lets every peripheral derived from `pname` derive from `pderive`.
    pub fn derive_peripheral(&mut self, pname: &str, pderive: &str) -> (r: Result<(), PatchError>)
        ensures
            same_but_peripherals(*old(self), *final(self)),
            !has_periph_named(old(self).peripherals@, pderive@) ==> failed_with(r, PatchErrorKind::NotFound)
                && *final(self) == *old(self),
            has_periph_named(old(self).peripherals@, pderive@) && !has_periph_named(old(self).peripherals@, pname@)
                ==> failed_with(r, PatchErrorKind::NotFound) && *final(self) == *old(self),
            has_periph_named(old(self).peripherals@, pderive@) && has_periph_named(old(self).peripherals@, pname@) ==> {
                let ps = old(self).peripherals@;
                &&& r is Ok
                &&& final(self).peripherals@.len() == ps.len()
                &&& exists|i: int, mid: Peripheral|
                    #![trigger first_periph_named(ps, pname@, i), periph_derived(ps[i], pderive@, mid)]
                    {
                        &&& first_periph_named(ps, pname@, i)
                        &&& periph_derived(ps[i], pderive@, mid)
                        &&& forall|j: int|
                            0 <= j < ps.len() ==> periph_redirected(
                                #[trigger] ps.update(i, mid)[j],
                                pname@,
                                pderive@,
                                final(self).peripherals@[j],
                            )
                    }
            },
    {
        if find_periph_in(&self.peripherals, pderive).is_none() {
            return Err(PatchError::NotFound(copy_str(pderive)));
        }
        let i = match find_periph_in(&self.peripherals, pname) {
            Some(i) => i,
            None => {
                return Err(PatchError::NotFound(copy_str(pname)));
            },
        };
        let ghost ps = self.peripherals@;
        let mut p = self.peripherals.remove(i);
        p.derived_from = Some(copy_str(pderive));
        p.registers = None;
        p.address_block = None;
        p.default_register_properties = RegisterProperties {
            size: None,
            access: None,
            protection: None,
            reset_value: None,
            reset_mask: None,
        };
        let ghost mid = p;
        self.peripherals.insert(i, p);
        assert(self.peripherals@ =~= ps.update(i as int, mid));
        assert(first_periph_named(ps, pname@, i as int));
        assert(periph_derived(ps[i as int], pderive@, mid));
        self.redirect_derived(pname, pderive);
        assert(forall|j: int|
            0 <= j < ps.len() ==> periph_redirected(
                #[trigger] ps.update(i as int, mid)[j],
                pname@,
                pderive@,
                self.peripherals@[j],
            ));
        Ok(())
    }

    /// Every peripheral derived from `from` derives from `to` instead.
    fn redirect_derived(&mut self, from: &str, to: &str)
        ensures
            same_but_peripherals(*old(self), *final(self)),
            final(self).peripherals@.len() == old(self).peripherals@.len(),
            forall|j: int|
                0 <= j < old(self).peripherals@.len() ==> periph_redirected(
                    #[trigger] old(self).peripherals@[j],
                    from@,
                    to@,
                    final(self).peripherals@[j],
                ),
    {
        let ghost ps = self.peripherals@;
        let n = self.peripherals.len();
        let mut i: usize = 0;
        while i < n
            invariant
                self.peripherals@.len() == n,
                n == ps.len(),
                ps == old(self).peripherals@,
                same_but_peripherals(*old(self), *self),
                forall|j: int| i <= j < n ==> self.peripherals@[j] == ps[j],
                forall|j: int| 0 <= j < i ==> periph_redirected(#[trigger] ps[j], from@, to@, self.peripherals@[j]),
            decreases n - i,
        {
            let hit = match &self.peripherals[i].derived_from {
                Some(d) => str_eq(d.as_str(), from),
                None => false,
            };
            if hit {
                let ghost before = self.peripherals@;
                let mut p = self.peripherals.remove(i);
                p.derived_from = Some(copy_str(to));
                self.peripherals.insert(i, p);
                assert forall|j: int| 0 <= j < n && j != i implies self.peripherals@[j] == before[j] by {}
            }
            i = i + 1;
        }
    }

    /// Move registers from pold to pnew.
    /// Update all derivedFrom referencing pold
    pub fn rebase_peripheral(&mut self, pnew: &str, pold: &str) -> (r: Result<(), PatchError>)
        ensures
            same_but_peripherals(*old(self), *final(self)),
            ({
                let ps = old(self).peripherals@;
                if !has_periph_named(ps, pold@) {
                    failed_with(r, PatchErrorKind::NotFound) && *final(self) == *old(self)
                } else {
                    exists|io: int, stub: Peripheral|
                        #![trigger first_periph_named(ps, pold@, io), rebase_stub(ps[io], pnew@, stub)]
                        {
                            &&& first_periph_named(ps, pold@, io)
                            &&& rebase_stub(ps[io], pnew@, stub)
                            &&& if !has_periph_named(ps.update(io, stub), pnew@) {
                                failed_with(r, PatchErrorKind::NotFound) && final(self).peripherals@ == ps.update(io, stub)
                            } else {
                                &&& r is Ok
                                &&& final(self).peripherals@.len() == ps.len()
                                &&& exists|inew: int, x: Peripheral|
                                    #![trigger first_periph_named(ps.update(io, stub), pnew@, inew), rebased(ps[io], ps.update(io, stub)[inew], x)]
                                    {
                                        &&& first_periph_named(ps.update(io, stub), pnew@, inew)
                                        &&& rebased(ps[io], ps.update(io, stub)[inew], x)
                                        &&& forall|j: int|
                                            0 <= j < ps.len() ==> periph_redirected(
                                                #[trigger] ps.update(io, stub).update(inew, x)[j],
                                                pold@,
                                                pnew@,
                                                final(self).peripherals@[j],
                                            )
                                    }
                            }
                        }
                }
            }),
    {
        let ghost ps = self.peripherals@;
        let io = match find_periph_in(&self.peripherals, pold) {
            Some(i) => i,
            None => {
                return Err(PatchError::NotFound(copy_str(pold)));
            },
        };
        let mut d = self.peripherals.remove(io);
        let ints = dup_interrupts(&d.interrupt);
        let stub = Peripheral {
            name: copy_str(pold),
            display_name: None,
            version: None,
            description: None,
            alternate_peripheral: None,
            group_name: None,
            prepend_to_name: None,
            append_to_name: None,
            header_struct_name: None,
            base_address: d.base_address,
            default_register_properties: RegisterProperties {
                size: None,
                access: None,
                protection: None,
                reset_value: None,
                reset_mask: None,
            },
            address_block: None,
            interrupt: ints,
            registers: None,
            derived_from: Some(copy_str(pnew)),
            dim: None,
        };
        let ghost sg = stub;
        self.peripherals.insert(io, stub);
        assert(self.peripherals@ =~= ps.update(io as int, sg));
        assert(rebase_stub(ps[io as int], pnew@, sg));
        let ghost ps1 = self.peripherals@;
        let inew = match find_periph_in(&self.peripherals, pnew) {
            Some(i) => i,
            None => {
                return Err(PatchError::NotFound(copy_str(pnew)));
            },
        };
        let target = self.peripherals.remove(inew);
        let nints = dup_interrupts(&target.interrupt);
        let ghost d0 = d;
        d.name = copy_str(target.name.as_str());
        d.base_address = target.base_address;
        d.interrupt = nints;
        let ghost x = d;
        assert(rebased(d0, ps1[inew as int], x));
        self.peripherals.insert(inew, d);
        assert(self.peripherals@ =~= ps1.update(inew as int, x));
        self.redirect_derived(pold, pnew);
        Ok(())
    }

    /// Work through the peripherals that `pspec` selects; it is an error when
    /// there are none.
    pub fn process_peripheral(&mut self, pspec: &str, pmod: &YamlHash, update_fields: bool) -> (r: Result<(), PatchError>)
        ensures
            same_but_peripherals(*old(self), *final(self)),
            !periph_names_compile(old(self).peripherals@, pspec@) ==> failed_with(r, PatchErrorKind::InvalidSpec)
                && *final(self) == *old(self),
            periph_names_compile(old(self).peripherals@, pspec@) ==> {
                let ps = old(self).peripherals@;
                &&& final(self).peripherals@.len() == ps.len()
                &&& forall|i: int|
                    0 <= i < ps.len() ==> if name_matches(#[trigger] ps[i].name@, pspec@) {
                        same_but_contents(ps[i], final(self).peripherals@[i])
                    } else {
                        final(self).peripherals@[i] == ps[i]
                    }
                &&& (forall|i: int| 0 <= i < ps.len() ==> !name_matches(#[trigger] ps[i].name@, pspec@))
                    ==> failed_with(r, PatchErrorKind::NotFound)
            },
    {
        let flags = match periph_flags(&self.peripherals, pspec, false) {
            None => {
                return Err(PatchError::InvalidSpec(copy_str(pspec)));
            },
            Some(f) => f,
        };
        let config = Config {
            show_patch_on_error: false,
            enum_derive: crate::patch::EnumAutoDerive::Enum,
            update_fields,
        };
        let n = self.peripherals.len();
        let mut count: usize = 0;
        let mut i: usize = 0;
        while i < n
            invariant
                self.peripherals@.len() == n,
                n == old(self).peripherals@.len(),
                i <= n,
                flags@.len() == n,
                count <= i,
                count == 0 ==> forall|j: int| 0 <= j < i ==> !flags@[j],
                count > 0 ==> exists|j: int| 0 <= j < i && flags@[j],
                same_but_peripherals(*old(self), *self),
                periph_names_compile(old(self).peripherals@, pspec@),
                forall|j: int| 0 <= j < n ==> flags@[j] == name_matches(#[trigger] old(self).peripherals@[j].name@, pspec@),
                forall|j: int|
                    0 <= j < n ==> if flags@[j] {
                        same_but_contents(old(self).peripherals@[j], #[trigger] self.peripherals@[j])
                    } else {
                        self.peripherals@[j] == old(self).peripherals@[j]
                    },
            decreases n - i,
        {
            if flags[i] {
                count = count + 1;
                let ghost before = self.peripherals@;
                let mut p = self.peripherals.remove(i);
                let res = p.process(pmod, &config);
                self.peripherals.insert(i, p);
                assert(self.peripherals@ =~= before.update(i as int, p));
                assert(name_matches(old(self).peripherals@[i as int].name@, pspec@));
                res?;
            }
            i = i + 1;
        }
        proof {
            if count > 0 {
                let j = choose|j: int| 0 <= j < i && flags@[j];
                assert(name_matches(old(self).peripherals@[j].name@, pspec@));
            }
        }
        if count == 0 {
            return Err(PatchError::NotFound(copy_str(pspec)));
        }
        Ok(())
    }
}

/// Changes one of the default register properties as a device rule says;
/// `protection` is read and left alone, an unknown access clears it.
fn modify_register_properties(p: &mut RegisterProperties, f: &str, val: &Yaml) -> (r: Result<(), PatchError>) {
    if str_eq(f, "size") {
        p.size = Some(#[verifier::truncate] (yerr(val.i64())? as u32));
    } else if str_eq(f, "access") {
        p.access = crate::model::Access::parse_str(yerr(val.str())?);
    } else if str_eq(f, "resetValue") {
        p.reset_value = Some(#[verifier::truncate] (yerr(val.i64())? as u64));
    } else if str_eq(f, "resetMask") {
        p.reset_mask = Some(#[verifier::truncate] (yerr(val.i64())? as u64));
    }
    Ok(())
}

/// The device properties whose change is not supported.
fn is_unsupported_device_key(k: &str) -> bool {
    str_eq(k, "vendor") || str_eq(k, "vendorID") || str_eq(k, "series") || str_eq(k, "licenseText") || str_eq(
        k,
        "headerSystemFilename",
    ) || str_eq(k, "headerDefinitionsPrefix")
}

fn starts_with_underscore(k: &str) -> bool {
    k.unicode_len() > 0 && k.get_char(0) == '_'
}

impl Device {
    /// One entry of the device's `_modify` rule.
    fn modify_entry(&mut self, key: &str, val: &Yaml) -> (r: Result<(), PatchError>) {
        if str_eq(key, "cpu") {
            self.modify_cpu(yerr(val.hash())?)
        } else if str_eq(key, "_peripherals") {
            let h = yerr(val.hash())?;
            let mut i: usize = 0;
            while i < h.entries.len()
                decreases h.entries.len() - i,
            {
                let pspec = yerr(h.entries[i].0.str())?;
                let pmod = yerr(h.entries[i].1.hash())?;
                self.modify_peripheral(pspec, pmod)?;
                i = i + 1;
            }
            Ok(())
        } else if is_unsupported_device_key(key) {
            Err(PatchError::Invalid(copy_str(key)))
        } else if str_eq(key, "name") {
            self.name = copy_str(yerr(val.str())?);
            Ok(())
        } else if str_eq(key, "version") {
            self.version = copy_str(yerr(val.str())?);
            Ok(())
        } else if str_eq(key, "description") {
            self.description = copy_str(yerr(val.str())?);
            Ok(())
        } else if str_eq(key, "addressUnitBits") {
            self.address_unit_bits = #[verifier::truncate] (yerr(val.i64())? as u32);
            Ok(())
        } else if str_eq(key, "width") {
            self.width = #[verifier::truncate] (yerr(val.i64())? as u32);
            Ok(())
        } else if str_eq(key, "size") || str_eq(key, "access") || str_eq(key, "protection") || str_eq(key, "resetValue")
            || str_eq(key, "resetMask") {
            modify_register_properties(&mut self.default_register_properties, key, val)
        } else {
            self.modify_peripheral(key, yerr(val.hash())?)
        }
    }

    /// Work through the device rules: deletions, copies, changes,
    /// additions, derivations and rebasings of peripherals, then the rules
    /// of each peripheral that a key names. Peripherals copied from other files
    /// are taken from `srcs`.
    #[verifier::loop_isolation(false)]
    pub fn process(&mut self, device: &YamlHash, update_fields: bool, srcs: &Vec<PeripheralSource>) -> (r: Result<(), PatchError>)
        ensures
            ({
                let o = periph_deletes(old(self).peripherals@, device_deletes(device.view_pairs()));
                &&& r is Ok ==> o.0
                &&& !o.0 ==> r is Err && same_but_peripherals(*old(self), *final(self)) && final(self).peripherals@
                    == o.1
            }),
    {
        proof {
            reveal_strlit("_delete");
            assert("_delete"@ =~= seq!['_', 'd', 'e', 'l', 'e', 't', 'e']);
        }
        // Handle any deletions
        let dels = device.str_vec_iter("_delete");
        let ghost ds = dels@.map_values(|x: String| x@);
        let ghost start = *self;
        assert(ds == device_deletes(device.view_pairs()));
        assert(ds.take(0) =~= Seq::<Seq<char>>::empty());
        let mut i: usize = 0;
        while i < dels.len()
            invariant
                i <= dels@.len(),
                ds == dels@.map_values(|x: String| x@),
                same_but_peripherals(start, *self),
                periph_deletes(start.peripherals@, ds.take(i as int)) == (true, self.peripherals@),
            decreases dels.len() - i,
        {
            assert(ds.take(i + 1).drop_last() =~= ds.take(i as int));
            assert(ds.take(i + 1).last() == dels@[i as int]@);
            match self.delete_peripheral(dels[i].as_str()) {
                Ok(()) => {},
                Err(e) => {
                    proof {
                        lemma_periph_deletes_stuck(start.peripherals@, ds, i + 1);
                    }
                    return Err(e);
                },
            }
            i = i + 1;
        }
        assert(ds.take(i as int) =~= ds);
        assert(periph_deletes(start.peripherals@, ds).0);
        // Handle any copied peripherals
        match device.hash_iter("_copy") {
            Some(h) => {
                let mut i: usize = 0;
                while i < h.entries.len()
                    decreases h.entries.len() - i,
                {
                    let pname = yerr(h.entries[i].0.str())?;
                    let pmod = yerr(h.entries[i].1.hash())?;
                    if yerr(device.get_str("_path"))?.is_none() {
                        return Err(PatchError::Invalid(copy_str("_path")));
                    }
                    self.copy_peripheral(pname, pmod, srcs)?;
                    i = i + 1;
                }
            },
            None => {},
        }
        // Handle any modifications
        match device.hash_iter("_modify") {
            Some(h) => {
                let mut i: usize = 0;
                while i < h.entries.len()
                    decreases h.entries.len() - i,
                {
                    let key = yerr(h.entries[i].0.str())?;
                    self.modify_entry(key, &h.entries[i].1)?;
                    i = i + 1;
                }
            },
            None => {},
        }
        // Handle any new peripherals (!)
        match device.hash_iter("_add") {
            Some(h) => {
                let mut i: usize = 0;
                while i < h.entries.len()
                    decreases h.entries.len() - i,
                {
                    let pname = yerr(h.entries[i].0.str())?;
                    let padd = yerr(h.entries[i].1.hash())?;
                    self.add_peripheral(pname, padd)?;
                    i = i + 1;
                }
            },
            None => {},
        }
        // Handle any derived peripherals
        match device.hash_iter("_derive") {
            Some(h) => {
                let mut i: usize = 0;
                while i < h.entries.len()
                    decreases h.entries.len() - i,
                {
                    let pname = yerr(h.entries[i].0.str())?;
                    let pderive = yerr(h.entries[i].1.str())?;
                    self.derive_peripheral(pname, pderive)?;
                    i = i + 1;
                }
            },
            None => {},
        }
        // Handle any rebased peripherals
        match device.hash_iter("_rebase") {
            Some(h) => {
                let mut i: usize = 0;
                while i < h.entries.len()
                    decreases h.entries.len() - i,
                {
                    let pname = yerr(h.entries[i].0.str())?;
                    let pold = yerr(h.entries[i].1.str())?;
                    self.rebase_peripheral(pname, pold)?;
                    i = i + 1;
                }
            },
            None => {},
        }
        // Now process all peripherals
        let mut i: usize = 0;
        while i < device.entries.len()
            decreases device.entries.len() - i,
        {
            let pspec = yerr(device.entries[i].0.str())?;
            if !starts_with_underscore(pspec) {
                let pmod = yerr(device.entries[i].1.hash())?;
                self.process_peripheral(pspec, pmod, update_fields)?;
            }
            i = i + 1;
        }
        Ok(())
    }
}

/// The peripherals of another description file, which a copy rule of the
/// form `file:peripheral` takes from; `file` is the path as the rule writes
/// it.
pub struct PeripheralSource {
    pub file: String,
    pub peripherals: Vec<Peripheral>,
}

/// The text `from`.
pub open spec fn k_from_key() -> Seq<char> {
    seq!['f', 'r', 'o', 'm']
}

/// `k` is the place of the only `:` in `s`.
pub open spec fn single_colon_at(s: Seq<char>, k: int) -> bool {
    &&& 0 <= k < s.len()
    &&& s[k] == ':'
    &&& forall|j: int| 0 <= j < s.len() && j != k ==> #[trigger] s[j] != ':'
}

/// `s` holds no `:`.
pub open spec fn no_colon(s: Seq<char>) -> bool {
    forall|j: int| 0 <= j < s.len() ==> #[trigger] s[j] != ':'
}

/// `i` is the place of the first peripheral among `ps` called `name`.
pub open spec fn first_periph_named(ps: Seq<Peripheral>, name: Seq<char>, i: int) -> bool {
    &&& 0 <= i < ps.len()
    &&& ps[i].name@ == name
    &&& forall|j: int| 0 <= j < i ==> #[trigger] ps[j].name@ != name
}

/// Some peripheral among `ps` is called `name`.
pub open spec fn has_periph_named(ps: Seq<Peripheral>, name: Seq<char>) -> bool {
    exists|i: int| 0 <= i < ps.len() && #[trigger] ps[i].name@ == name
}

/// `i` is the place of the first source for the file `file`.
pub open spec fn first_source(srcs: Seq<PeripheralSource>, file: Seq<char>, i: int) -> bool {
    &&& 0 <= i < srcs.len()
    &&& srcs[i].file@ == file
    &&& forall|j: int| 0 <= j < i ==> #[trigger] srcs[j].file@ != file
}

/// `x` is the peripheral `src` copied under the name `pname`, not derived,
/// and without interrupts when `clear` is set.
pub open spec fn periph_copied(src: Peripheral, pname: Seq<char>, clear: bool, x: Peripheral) -> bool {
    exists|c: Peripheral|
        #![trigger periph_same(c, src)]
        {
            &&& periph_same(c, src)
            &&& x == Peripheral { name: x.name, derived_from: None, interrupt: x.interrupt, ..c }
            &&& x.name@ == pname
            &&& if clear {
                x.interrupt@.len() == 0
            } else {
                x.interrupt == c.interrupt
            }
        }
}

/// `o` is the peripherals `ps` with `x` in place of the first one called
/// `pname`, keeping that one's base address and interrupts, or, when there
/// is none, with `x` added at the end.
pub open spec fn periph_copy_placed(ps: Seq<Peripheral>, pname: Seq<char>, x: Peripheral, o: Seq<Peripheral>) -> bool {
    if has_periph_named(ps, pname) {
        exists|t: int|
            first_periph_named(ps, pname, t) && o == ps.update(
                t,
                Peripheral { base_address: ps[t].base_address, interrupt: ps[t].interrupt, ..x },
            )
    } else {
        o == ps.push(x)
    }
}

/// The result of taking the peripheral `src` (`clear` when its interrupts
/// go) as the copy `pname` in the peripherals `ps`: `o`.
pub open spec fn copy_result(ps: Seq<Peripheral>, src: Peripheral, clear: bool, pname: Seq<char>, o: Seq<Peripheral>) -> bool {
    exists|x: Peripheral| #[trigger] periph_copied(src, pname, clear, x) && periph_copy_placed(ps, pname, x, o)
}

/// What copying a peripheral as the rule `h` says, under the name `pname`,
/// makes of the peripherals `ps`: `o`, with the outcome `r`. `from` names a
/// peripheral of this device (whose interrupts are not copied), or
/// `file:peripheral` one of another file, among `srcs`.
pub open spec fn periph_copy_outcome(
    ps: Seq<Peripheral>,
    o: Seq<Peripheral>,
    r: Result<(), PatchError>,
    pname: Seq<char>,
    h: Seq<(YamlV, YamlV)>,
    srcs: Seq<PeripheralSource>,
) -> bool {
    match text_entry(h, k_from_key()) {
        Err(e) => failed_reading(r, e) && o == ps,
        Ok(None) => failed_with(r, PatchErrorKind::Invalid) && o == ps,
        Ok(Some(f)) => if no_colon(f) {
            if !has_periph_named(ps, f) {
                failed_with(r, PatchErrorKind::NotFound) && o == ps
            } else {
                r is Ok && exists|i: int| #[trigger] first_periph_named(ps, f, i) && copy_result(ps, ps[i], true, pname, o)
            }
        } else if exists|k: int| single_colon_at(f, k) {
            let k = choose|k: int| single_colon_at(f, k);
            let file = f.take(k);
            let name = f.skip(k + 1);
            if !exists|s: int| 0 <= s < srcs.len() && #[trigger] srcs[s].file@ == file {
                failed_with(r, PatchErrorKind::NotFound) && o == ps
            } else {
                exists|s: int|
                    #[trigger] first_source(srcs, file, s) && if !has_periph_named(srcs[s].peripherals@, name) {
                        failed_with(r, PatchErrorKind::NotFound) && o == ps
                    } else {
                        r is Ok && exists|i: int|
                            #[trigger] first_periph_named(srcs[s].peripherals@, name, i) && copy_result(
                                ps,
                                srcs[s].peripherals@[i],
                                false,
                                pname,
                                o,
                            )
                    }
            }
        } else {
            failed_with(r, PatchErrorKind::Invalid) && o == ps
        },
    }
}

/// The place of the first peripheral among `ps` called `name`.
fn find_periph_in(ps: &Vec<Peripheral>, name: &str) -> (r: Option<usize>)
    ensures
        match r {
            Some(i) => first_periph_named(ps@, name@, i as int),
            None => !has_periph_named(ps@, name@),
        },
{
    let mut i: usize = 0;
    while i < ps.len()
        invariant
            i <= ps@.len(),
            forall|j: int| 0 <= j < i ==> #[trigger] ps@[j].name@ != name@,
        decreases ps.len() - i,
    {
        if str_eq(ps[i].name.as_str(), name) {
            return Some(i);
        }
        i = i + 1;
    }
    None
}

/// The place of the first source for the file `file`.
fn find_source(srcs: &Vec<PeripheralSource>, file: &str) -> (r: Option<usize>)
    ensures
        match r {
            Some(i) => first_source(srcs@, file@, i as int),
            None => !exists|s: int| 0 <= s < srcs@.len() && #[trigger] srcs@[s].file@ == file@,
        },
{
    let mut i: usize = 0;
    while i < srcs.len()
        invariant
            i <= srcs@.len(),
            forall|j: int| 0 <= j < i ==> #[trigger] srcs@[j].file@ != file@,
        decreases srcs.len() - i,
    {
        if str_eq(srcs[i].file.as_str(), file) {
            return Some(i);
        }
        i = i + 1;
    }
    None
}

/// Where `s` splits at `:`: `Ok(None)` when it holds none, `Ok(Some(k))`
/// when it holds one, at `k`; `Err` when it holds more.
fn colon_split(s: &Vec<char>) -> (r: Result<Option<usize>, ()>)
    ensures
        match r {
            Ok(None) => no_colon(s@),
            Ok(Some(k)) => single_colon_at(s@, k as int),
            Err(()) => !no_colon(s@) && forall|k: int| !single_colon_at(s@, k),
        },
{
    let n = s.len();
    let mut count: usize = 0;
    let mut k: usize = 0;
    let mut i: usize = 0;
    while i < n
        invariant
            n == s@.len(),
            i <= n,
            count <= 2,
            count == 0 ==> forall|j: int| 0 <= j < i ==> #[trigger] s@[j] != ':',
            count >= 1 ==> k < i && s@[k as int] == ':',
            count == 1 ==> forall|j: int| 0 <= j < i && j != k ==> #[trigger] s@[j] != ':',
            count == 2 ==> exists|j: int| 0 <= j < i && j != k && #[trigger] s@[j] == ':',
        decreases n - i,
    {
        if s[i] == ':' {
            if count == 0 {
                k = i;
                count = 1;
            } else {
                assert(s@[i as int] == ':');
                count = 2;
            }
        }
        i = i + 1;
    }
    if count == 0 {
        Ok(None)
    } else if count == 1 {
        Ok(Some(k))
    } else {
        assert forall|k2: int| !single_colon_at(s@, k2) by {
            if single_colon_at(s@, k2) {
                let j = choose|j: int| 0 <= j < n && j != k && #[trigger] s@[j] == ':';
                assert(s@[k as int] == ':');
            }
        }
        assert(s@[k as int] == ':');
        Err(())
    }
}

/// `out` is peripheral `q`, made to derive from `to` when it derived from
/// `from`.
pub open spec fn periph_redirected(q: Peripheral, from: Seq<char>, to: Seq<char>, out: Peripheral) -> bool {
    match q.derived_from {
        Some(d) => if d@ == from {
            out == Peripheral { derived_from: out.derived_from, ..q } && opt_view(out.derived_from) == Some(to)
        } else {
            out == q
        },
        None => out == q,
    }
}

/// `out` is peripheral `p` derived from `pderive`: without registers,
/// address blocks or default register properties, and all else kept.
pub open spec fn periph_derived(p: Peripheral, pderive: Seq<char>, out: Peripheral) -> bool {
    &&& out == Peripheral {
        derived_from: out.derived_from,
        registers: None,
        address_block: None,
        default_register_properties: crate::patch::reg_builders::no_props(),
        ..p
    }
    &&& opt_view(out.derived_from) == Some(pderive)
}

/// `s` is what a rebase leaves in place of peripheral `p`: a peripheral of
/// the same name, base address and interrupts that derives from `pnew`.
pub open spec fn rebase_stub(p: Peripheral, pnew: Seq<char>, s: Peripheral) -> bool {
    &&& s.name@ == p.name@
    &&& s.display_name is None
    &&& s.version is None
    &&& s.description is None
    &&& s.alternate_peripheral is None
    &&& s.group_name is None
    &&& s.prepend_to_name is None
    &&& s.append_to_name is None
    &&& s.header_struct_name is None
    &&& s.base_address == p.base_address
    &&& s.default_register_properties == crate::patch::reg_builders::no_props()
    &&& s.address_block is None
    &&& irq_views(s.interrupt@) == irq_views(p.interrupt@)
    &&& s.registers is None
    &&& opt_view(s.derived_from) == Some(pnew)
    &&& s.dim is None
}

/// `out` is peripheral `d` under the name, base address and interrupts of
/// peripheral `t`.
pub open spec fn rebased(d: Peripheral, t: Peripheral, out: Peripheral) -> bool {
    &&& out == Peripheral { name: out.name, base_address: t.base_address, interrupt: out.interrupt, ..d }
    &&& out.name@ == t.name@
    &&& irq_views(out.interrupt@) == irq_views(t.interrupt@)
}

impl Device {
    /// Puts the copy `x` of a peripheral under the name `pname` (see
    /// [`periph_copy_placed`]).
    fn place_copy(&mut self, pname: &str, x: Peripheral)
        requires
            x.name@ == pname@,
        ensures
            same_but_peripherals(*old(self), *final(self)),
            periph_copy_placed(old(self).peripherals@, pname@, x, final(self).peripherals@),
    {
        let mut x = x;
        let ghost ps = self.peripherals@;
        let ghost xg = x;
        match find_periph_in(&self.peripherals, pname) {
            Some(t) => {
                let mut old_p = self.peripherals.remove(t);
                x.base_address = old_p.base_address;
                let mut irqs: Vec<Interrupt> = Vec::new();
                std::mem::swap(&mut irqs, &mut old_p.interrupt);
                x.interrupt = irqs;
                self.peripherals.insert(t, x);
                assert(self.peripherals@ =~= ps.update(
                    t as int,
                    Peripheral { base_address: ps[t as int].base_address, interrupt: ps[t as int].interrupt, ..xg },
                ));
            },
            None => {
                self.peripherals.push(x);
            },
        }
    }

    /// Copies a peripheral as the rule `pmod` says under the name `pname`
    /// (see [`periph_copy_outcome`]); a peripheral already called `pname` is
    /// replaced, keeping its base address and interrupts.
    pub fn copy_peripheral(&mut self, pname: &str, pmod: &YamlHash, srcs: &Vec<PeripheralSource>) -> (r: Result<(), PatchError>)
        ensures
            same_but_peripherals(*old(self), *final(self)),
            periph_copy_outcome(old(self).peripherals@, final(self).peripherals@, r, pname@, pmod.view_pairs(), srcs@),
    {
        proof {
            reveal_strlit("from");
            assert("from"@ =~= k_from_key());
        }
        let from = match pmod.get_str("from") {
            Ok(Some(f)) => f,
            Ok(None) => {
                return Err(PatchError::Invalid(copy_str(pname)));
            },
            Err(e) => {
                return Err(PatchError::Yaml(e));
            },
        };
        let cs = chars_of(from);
        match colon_split(&cs) {
            Ok(None) => {
                let i = match find_periph_in(&self.peripherals, from) {
                    Some(i) => i,
                    None => {
                        return Err(PatchError::NotFound(copy_str(from)));
                    },
                };
                let ghost src = self.peripherals@[i as int];
                let mut x = dup_peripheral(&self.peripherals[i]);
                let ghost c = x;
                x.name = copy_str(pname);
                x.derived_from = None;
                x.interrupt = Vec::new();
                assert(periph_copied(src, pname@, true, x));
                self.place_copy(pname, x);
                Ok(())
            },
            Ok(Some(k)) => {
                let len = cs.len();
                assert(k < len);
                let file = string_from_chars(&sub_chars(&cs, 0, k));
                let name = string_from_chars(&sub_chars(&cs, k + 1, len));
                proof {
                    let kk = choose|k2: int| single_colon_at(from@, k2);
                    assert(kk == k);
                    assert(cs@.subrange(0, k as int) =~= from@.take(k as int));
                    assert(cs@.subrange(k + 1, cs@.len() as int) =~= from@.skip(k + 1));
                }
                let si = match find_source(srcs, file.as_str()) {
                    Some(si) => si,
                    None => {
                        return Err(PatchError::NotFound(file));
                    },
                };
                let i = match find_periph_in(&srcs[si].peripherals, name.as_str()) {
                    Some(i) => i,
                    None => {
                        return Err(PatchError::NotFound(name));
                    },
                };
                let ghost src = srcs@[si as int].peripherals@[i as int];
                let mut x = dup_peripheral(&srcs[si].peripherals[i]);
                let ghost c = x;
                x.name = copy_str(pname);
                x.derived_from = None;
                assert(periph_copied(src, pname@, false, x));
                self.place_copy(pname, x);
                Ok(())
            },
            Err(()) => Err(PatchError::Invalid(copy_str(from))),
        }
    }
}

} // verus!
