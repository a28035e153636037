//! The device description that the patches edit: devices, peripherals,
//! clusters, registers, fields and their enumerated values, as plain values.
use vstd::prelude::*;
use crate::text::str_eq;
use crate::interrupts::svd_reader::Interrupt;

verus! {

/// Access rights of a register or field.
#[derive(Clone, Copy, Debug, PartialEq, Eq, Structural)]
pub enum Access {
    ReadOnly,
    ReadWrite,
    ReadWriteOnce,
    WriteOnce,
    WriteOnly,
}

/// The spelling of each access right in a description file.
pub open spec fn access_text(a: Access) -> Seq<char> {
    match a {
        Access::ReadOnly => seq!['r', 'e', 'a', 'd', '-', 'o', 'n', 'l', 'y'],
        Access::ReadWrite => seq!['r', 'e', 'a', 'd', '-', 'w', 'r', 'i', 't', 'e'],
        Access::ReadWriteOnce => seq![
            'r', 'e', 'a', 'd', '-', 'w', 'r', 'i', 't', 'e', 'O', 'n', 'c', 'e'
        ],
        Access::WriteOnce => seq!['w', 'r', 'i', 't', 'e', 'O', 'n', 'c', 'e'],
        Access::WriteOnly => seq!['w', 'r', 'i', 't', 'e', '-', 'o', 'n', 'l', 'y'],
    }
}

/// The access right spelled `s`, if any.
pub open spec fn access_of_text(s: Seq<char>) -> Option<Access> {
    if s == access_text(Access::ReadOnly) {
        Some(Access::ReadOnly)
    } else if s == access_text(Access::ReadWrite) {
        Some(Access::ReadWrite)
    } else if s == access_text(Access::ReadWriteOnce) {
        Some(Access::ReadWriteOnce)
    } else if s == access_text(Access::WriteOnly) {
        Some(Access::WriteOnly)
    } else if s == access_text(Access::WriteOnce) {
        Some(Access::WriteOnce)
    } else {
        None
    }
}

impl Access {
    /// Parse a string into an [`Access`] value, returning `None` if the
    /// string is not valid.
    pub fn parse_str(s: &str) -> (r: Option<Access>)
        ensures
            r == access_of_text(s@),
    {
        proof {
            reveal_strlit("read-only");
            reveal_strlit("read-write");
            reveal_strlit("read-writeOnce");
            reveal_strlit("write-only");
            reveal_strlit("writeOnce");
            assert(access_text(Access::ReadOnly) =~= "read-only"@);
            assert(access_text(Access::ReadWrite) =~= "read-write"@);
            assert(access_text(Access::ReadWriteOnce) =~= "read-writeOnce"@);
            assert(access_text(Access::WriteOnly) =~= "write-only"@);
            assert(access_text(Access::WriteOnce) =~= "writeOnce"@);
        }
        if str_eq(s, "read-only") {
            Some(Access::ReadOnly)
        } else if str_eq(s, "read-write") {
            Some(Access::ReadWrite)
        } else if str_eq(s, "read-writeOnce") {
            Some(Access::ReadWriteOnce)
        } else if str_eq(s, "write-only") {
            Some(Access::WriteOnly)
        } else if str_eq(s, "writeOnce") {
            Some(Access::WriteOnce)
        } else {
            None
        }
    }

    /// The spelling of this access right.
    pub fn as_str(&self) -> (r: &'static str)
        ensures
            r@ == access_text(*self),
    {
        proof {
            reveal_strlit("read-only");
            reveal_strlit("read-write");
            reveal_strlit("read-writeOnce");
            reveal_strlit("write-only");
            reveal_strlit("writeOnce");
            assert(access_text(Access::ReadOnly) =~= "read-only"@);
            assert(access_text(Access::ReadWrite) =~= "read-write"@);
            assert(access_text(Access::ReadWriteOnce) =~= "read-writeOnce"@);
            assert(access_text(Access::WriteOnly) =~= "write-only"@);
            assert(access_text(Access::WriteOnce) =~= "writeOnce"@);
        }
        match self {
            Access::ReadOnly => "read-only",
            Access::ReadWrite => "read-write",
            Access::ReadWriteOnce => "read-writeOnce",
            Access::WriteOnce => "writeOnce",
            Access::WriteOnly => "write-only",
        }
    }
}

/// Which way of use a set of enumerated values describes.
#[derive(Clone, Copy, Debug, PartialEq, Eq, Structural)]
pub enum Usage {
    Read,
    Write,
    ReadWrite,
}

/// Side effect of reading a field.
#[derive(Clone, Copy, Debug, PartialEq, Eq, Structural)]
pub enum ReadAction {
    Clear,
    SetBits,
    Modify,
    ModifyExternal,
}

/// Effect of writing a field.
#[derive(Clone, Copy, Debug, PartialEq, Eq, Structural)]
pub enum ModifiedWriteValues {
    OneToClear,
    OneToSet,
    OneToToggle,
    ZeroToClear,
    ZeroToSet,
    ZeroToToggle,
    Clear,
    SetBits,
    Modify,
}

/// Which values may be written.
#[derive(Clone, Copy, Debug, PartialEq, Eq, Structural)]
pub enum WriteConstraint {
    WriteAsRead(bool),
    UseEnumeratedValues(bool),
    /// The inclusive range `min..=max`.
    Range(u64, u64),
}

/// How a bit range was written in the description.
#[derive(Clone, Copy, Debug, PartialEq, Eq, Structural)]
pub enum BitRangeType {
    BitRange,
    OffsetWidth,
    MsbLsb,
}

/// Security protection of an element.
#[derive(Clone, Copy, Debug, PartialEq, Eq, Structural)]
pub enum Protection {
    Secure,
    NonSecure,
    Privileged,
}

/// Byte order of the processor.
#[derive(Clone, Copy, Debug, PartialEq, Eq, Structural)]
pub enum Endian {
    Little,
    Big,
    Selectable,
    Other,
}

/// What an address block holds.
#[derive(Clone, Copy, Debug, PartialEq, Eq, Structural)]
pub enum AddressBlockUsage {
    Registers,
    Buffer,
    Reserved,
}

/// One enumerated value.
#[derive(Debug)]
pub struct EnumeratedValue {
    pub name: String,
    pub description: Option<String>,
    pub value: Option<u64>,
    pub is_default: Option<bool>,
}

/// A set of enumerated values of a field.
#[derive(Debug)]
pub struct EnumeratedValues {
    pub name: Option<String>,
    pub usage: Option<Usage>,
    pub derived_from: Option<String>,
    pub values: Vec<EnumeratedValue>,
}

/// How an element is repeated as an array.
#[derive(Debug)]
pub struct DimElement {
    pub dim: u32,
    pub dim_increment: u32,
    pub dim_index: Option<Vec<String>>,
    pub dim_name: Option<String>,
}

/// A bit field of a register; `dim` is set when it is an array.
#[derive(Debug)]
pub struct Field {
    pub name: String,
    pub description: Option<String>,
    pub bit_offset: u32,
    pub bit_width: u32,
    pub range_type: BitRangeType,
    pub access: Option<Access>,
    pub modified_write_values: Option<ModifiedWriteValues>,
    pub write_constraint: Option<WriteConstraint>,
    pub read_action: Option<ReadAction>,
    pub enumerated_values: Vec<EnumeratedValues>,
    pub derived_from: Option<String>,
    pub dim: Option<DimElement>,
}

/// Default properties of the registers below an element.
#[derive(Clone, Copy, Debug)]
pub struct RegisterProperties {
    pub size: Option<u32>,
    pub access: Option<Access>,
    pub protection: Option<Protection>,
    pub reset_value: Option<u64>,
    pub reset_mask: Option<u64>,
}

/// A register; `dim` is set when it is an array.
#[derive(Debug)]
pub struct Register {
    pub name: String,
    pub display_name: Option<String>,
    pub description: Option<String>,
    pub alternate_group: Option<String>,
    pub alternate_register: Option<String>,
    pub address_offset: u32,
    pub properties: RegisterProperties,
    pub datatype: Option<String>,
    pub modified_write_values: Option<ModifiedWriteValues>,
    pub write_constraint: Option<WriteConstraint>,
    pub read_action: Option<ReadAction>,
    pub fields: Option<Vec<Field>>,
    pub derived_from: Option<String>,
    pub dim: Option<DimElement>,
}

/// A cluster of registers; `dim` is set when it is an array.
#[derive(Debug)]
pub struct Cluster {
    pub name: String,
    pub description: Option<String>,
    pub alternate_cluster: Option<String>,
    pub header_struct_name: Option<String>,
    pub address_offset: u32,
    pub default_register_properties: RegisterProperties,
    pub children: Vec<RegisterCluster>,
    pub derived_from: Option<String>,
    pub dim: Option<DimElement>,
}

/// A member of a register block: a register or a cluster.
#[derive(Debug)]
pub enum RegisterCluster {
    Register(Register),
    Cluster(Cluster),
}

/// A block of the address space of a peripheral.
#[derive(Clone, Copy, Debug)]
pub struct AddressBlock {
    pub offset: u32,
    pub size: u32,
    pub usage: AddressBlockUsage,
    pub protection: Option<Protection>,
}

/// A peripheral; `dim` is set when it is an array.
#[derive(Debug)]
pub struct Peripheral {
    pub name: String,
    pub display_name: Option<String>,
    pub version: Option<String>,
    pub description: Option<String>,
    pub alternate_peripheral: Option<String>,
    pub group_name: Option<String>,
    pub prepend_to_name: Option<String>,
    pub append_to_name: Option<String>,
    pub header_struct_name: Option<String>,
    pub base_address: u64,
    pub default_register_properties: RegisterProperties,
    pub address_block: Option<Vec<AddressBlock>>,
    pub interrupt: Vec<Interrupt>,
    pub registers: Option<Vec<RegisterCluster>>,
    pub derived_from: Option<String>,
    pub dim: Option<DimElement>,
}

/// The processor of a device.
#[derive(Debug)]
pub struct Cpu {
    pub name: String,
    pub revision: String,
    pub endian: Endian,
    pub mpu_present: bool,
    pub fpu_present: bool,
    pub fpu_double_precision: Option<bool>,
    pub dsp_present: Option<bool>,
    pub icache_present: Option<bool>,
    pub dcache_present: Option<bool>,
    pub itcm_present: Option<bool>,
    pub dtcm_present: Option<bool>,
    pub vtor_present: Option<bool>,
    pub nvic_priority_bits: u32,
    pub has_vendor_systick: bool,
    pub device_num_interrupts: Option<u32>,
    pub sau_num_regions: Option<u32>,
}

/// A whole device.
#[derive(Debug)]
pub struct Device {
    pub vendor: Option<String>,
    pub vendor_id: Option<String>,
    pub name: String,
    pub series: Option<String>,
    pub version: String,
    pub description: String,
    pub license_text: Option<String>,
    pub cpu: Option<Cpu>,
    pub header_system_filename: Option<String>,
    pub header_definitions_prefix: Option<String>,
    pub address_unit_bits: u32,
    pub width: u32,
    pub default_register_properties: RegisterProperties,
    pub peripherals: Vec<Peripheral>,
}

/// The bits of a field `width` bits wide at `offset`; `None` where the shift
/// that computes them would overflow.
pub open spec fn single_mask(offset: u32, width: u32) -> Option<u64> {
    if 1 <= width <= 64 && offset < 64 {
        Some((0xffff_ffff_ffff_ffffu64 >> ((64 - width) as u64)) << (offset as u64))
    } else {
        None
    }
}

/// The bits of the first `k` elements of an array of fields with the bits
/// `mask`, `inc` bits apart; `None` where a shift would overflow.
pub open spec fn array_mask(mask: u64, inc: u32, k: nat) -> Option<u64>
    decreases k,
{
    if k == 0 {
        Some(0u64)
    } else {
        match array_mask(mask, inc, (k - 1) as nat) {
            None => None,
            Some(bits) => if (k - 1) * inc < 64 {
                Some(bits | (mask << (((k - 1) * inc) as u64)))
            } else {
                None
            },
        }
    }
}

/// The bits that field `f` covers, every element of an array included.
pub open spec fn field_mask(f: Field) -> Option<u64> {
    match single_mask(f.bit_offset, f.bit_width) {
        None => None,
        Some(m) => match f.dim {
            None => Some(m),
            Some(d) => array_mask(m, d.dim_increment, d.dim as nat),
        },
    }
}

/// The bits that the first `k` fields of `fs` cover.
pub open spec fn fields_mask(fs: Seq<Field>, k: nat) -> Option<u64>
    decreases k,
{
    if k == 0 {
        Some(0u64)
    } else {
        match (fields_mask(fs, (k - 1) as nat), field_mask(fs[k - 1])) {
            (Some(a), Some(b)) => Some(a | b),
            _ => None,
        }
    }
}

/// The bits that the fields of register `r` cover.
pub open spec fn register_mask(r: Register) -> Option<u64> {
    match r.fields {
        None => Some(0u64),
        Some(v) => fields_mask(v@, v@.len()),
    }
}

impl Field {
    /// The bits that this field covers, every element of an array included;
    /// `None` where a shift would overflow.
    #[verifier::loop_isolation(false)]
    pub fn bitmask(&self) -> (r: Option<u64>)
        ensures
            r == field_mask(*self),
    {
        if self.bit_width < 1 || self.bit_width > 64 || self.bit_offset >= 64 {
            return None;
        }
        let m: u64 = (0xffff_ffff_ffff_ffffu64 >> ((64 - self.bit_width) as u64)) << (self.bit_offset as u64);
        match &self.dim {
            None => Some(m),
            Some(d) => {
                let mut bits: u64 = 0;
                let mut i: u32 = 0;
                while i < d.dim
                    invariant
                        i <= d.dim,
                        array_mask(m, d.dim_increment, i as nat) == Some(bits),
                    decreases d.dim - i,
                {
                    let ghost gi = i;
                    if d.dim_increment > 0 && i > 63 / d.dim_increment {
                        proof {
                            assert(i * d.dim_increment >= 64) by (nonlinear_arith)
                                requires
                                    d.dim_increment > 0,
                                    i > 63u32 / d.dim_increment,
                            ;
                            lemma_array_mask_none(m, d.dim_increment, i as nat, d.dim as nat);
                        }
                        return None;
                    }
                    assert(i * d.dim_increment <= 63) by (nonlinear_arith)
                        requires
                            d.dim_increment > 0 ==> i <= 63u32 / d.dim_increment,
                            d.dim_increment == 0 ==> i * d.dim_increment == 0,
                    ;
                    let sh: u32 = i * d.dim_increment;
                    bits = bits | (m << (sh as u64));
                    i = i + 1;
                }
                Some(bits)
            },
        }
    }
}

proof fn lemma_array_mask_none(mask: u64, inc: u32, i: nat, n: nat)
    requires
        i < n,
        i * inc >= 64,
    ensures
        array_mask(mask, inc, n) is None,
    decreases n,
{
    if n > i + 1 {
        lemma_array_mask_none(mask, inc, i, (n - 1) as nat);
    }
}

impl Register {
    /// The bits that the fields of this register cover; `None` where a
    /// shift would overflow.
    #[verifier::loop_isolation(false)]
    pub fn bitmask(&self) -> (r: Option<u64>)
        ensures
            r == register_mask(*self),
    {
        match &self.fields {
            None => Some(0),
            Some(v) => {
                let mut bits: u64 = 0;
                let mut i: usize = 0;
                while i < v.len()
                    invariant
                        i <= v@.len(),
                        fields_mask(v@, i as nat) == Some(bits),
                    decreases v.len() - i,
                {
                    match v[i].bitmask() {
                        None => {
                            proof {
                                lemma_fields_mask_none(v@, i as nat, v@.len());
                            }
                            return None;
                        },
                        Some(m) => {
                            bits = bits | m;
                        },
                    }
                    i = i + 1;
                }
                Some(bits)
            },
        }
    }
}

proof fn lemma_fields_mask_none(fs: Seq<Field>, i: nat, n: nat)
    requires
        i < n <= fs.len(),
        field_mask(fs[i as int]) is None,
    ensures
        fields_mask(fs, n) is None,
    decreases n,
{
    if n > i + 1 {
        lemma_fields_mask_none(fs, i, (n - 1) as nat);
    }
}

} // verus!
