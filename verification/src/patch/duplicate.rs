//! Deep copies of fields, registers and clusters, and the relations that
//! say two of them hold the same content.
use vstd::prelude::*;
use crate::model::{AddressBlock, DimElement, Field, Register, Cluster, RegisterCluster, Peripheral};
use crate::interrupts::svd_reader::Interrupt;
use crate::patch::peripheral::irq_views;
use crate::patch::builders::texts_of;
use crate::patch::enums::{set_views, copy_set};
use crate::text::{opt_view, copy_opt};

verus! {

/// Two array descriptions hold the same content.
pub open spec fn dim_same(a: DimElement, b: DimElement) -> bool {
    &&& a.dim == b.dim
    &&& a.dim_increment == b.dim_increment
    &&& opt_view(a.dim_name) == opt_view(b.dim_name)
    &&& match (a.dim_index, b.dim_index) {
        (Some(x), Some(y)) => texts_of(x@) == texts_of(y@),
        (None, None) => true,
        _ => false,
    }
}

/// Two optional array descriptions hold the same content.
pub open spec fn opt_dim_same(a: Option<DimElement>, b: Option<DimElement>) -> bool {
    match (a, b) {
        (Some(x), Some(y)) => dim_same(x, y),
        (None, None) => true,
        _ => false,
    }
}

/// Two fields hold the same content.
pub open spec fn field_same(a: Field, b: Field) -> bool {
    &&& a.name@ == b.name@
    &&& opt_view(a.description) == opt_view(b.description)
    &&& a.bit_offset == b.bit_offset
    &&& a.bit_width == b.bit_width
    &&& a.range_type == b.range_type
    &&& a.access == b.access
    &&& a.modified_write_values == b.modified_write_values
    &&& a.write_constraint == b.write_constraint
    &&& a.read_action == b.read_action
    &&& set_views(a.enumerated_values@) == set_views(b.enumerated_values@)
    &&& opt_view(a.derived_from) == opt_view(b.derived_from)
    &&& opt_dim_same(a.dim, b.dim)
}

/// Two optional lists of fields hold the same content, field by field.
pub open spec fn fields_same(a: Option<Vec<Field>>, b: Option<Vec<Field>>) -> bool {
    match (a, b) {
        (Some(x), Some(y)) => x@.len() == y@.len() && forall|i: int|
            0 <= i < x@.len() ==> field_same(#[trigger] x@[i], y@[i]),
        (None, None) => true,
        _ => false,
    }
}

/// Two registers hold the same content.
pub open spec fn reg_same(a: Register, b: Register) -> bool {
    &&& a.name@ == b.name@
    &&& opt_view(a.display_name) == opt_view(b.display_name)
    &&& opt_view(a.description) == opt_view(b.description)
    &&& opt_view(a.alternate_group) == opt_view(b.alternate_group)
    &&& opt_view(a.alternate_register) == opt_view(b.alternate_register)
    &&& a.address_offset == b.address_offset
    &&& a.properties == b.properties
    &&& opt_view(a.datatype) == opt_view(b.datatype)
    &&& a.modified_write_values == b.modified_write_values
    &&& a.write_constraint == b.write_constraint
    &&& a.read_action == b.read_action
    &&& fields_same(a.fields, b.fields)
    &&& opt_view(a.derived_from) == opt_view(b.derived_from)
    &&& opt_dim_same(a.dim, b.dim)
}

/// Two clusters agree on everything but their members.
pub open spec fn cluster_head_same(a: Cluster, b: Cluster) -> bool {
    &&& a.name@ == b.name@
    &&& opt_view(a.description) == opt_view(b.description)
    &&& opt_view(a.alternate_cluster) == opt_view(b.alternate_cluster)
    &&& opt_view(a.header_struct_name) == opt_view(b.header_struct_name)
    &&& a.address_offset == b.address_offset
    &&& a.default_register_properties == b.default_register_properties
    &&& opt_view(a.derived_from) == opt_view(b.derived_from)
    &&& opt_dim_same(a.dim, b.dim)
}

/// Two members of a block hold the same content, at every depth.
pub open spec fn rc_same(a: RegisterCluster, b: RegisterCluster) -> bool
    decreases a,
{
    match (a, b) {
        (RegisterCluster::Register(x), RegisterCluster::Register(y)) => reg_same(x, y),
        (RegisterCluster::Cluster(x), RegisterCluster::Cluster(y)) => {
            &&& cluster_head_same(x, y)
            &&& x.children@.len() == y.children@.len()
            &&& forall|i: int|
                0 <= i < x.children@.len() ==> rc_same(#[trigger] x.children@[i], y.children@[i])
        },
        _ => false,
    }
}

/// Two lists of members hold the same content, member by member.
pub open spec fn rcs_same(a: Seq<RegisterCluster>, b: Seq<RegisterCluster>) -> bool {
    a.len() == b.len() && forall|i: int| 0 <= i < a.len() ==> rc_same(#[trigger] a[i], b[i])
}

/// A copy of a list of texts.
pub fn dup_texts(v: &Vec<String>) -> (r: Vec<String>)
    ensures
        texts_of(r@) == texts_of(v@),
{
    let mut out: Vec<String> = Vec::new();
    let mut i: usize = 0;
    while i < v.len()
        invariant
            i <= v@.len(),
            texts_of(out@) == texts_of(v@).take(i as int),
        decreases v.len() - i,
    {
        let ghost before = out@;
        out.push(v[i].clone());
        assert(texts_of(out@) =~= texts_of(before).push(v@[i as int]@));
        assert(texts_of(v@).take(i + 1) =~= texts_of(v@).take(i as int).push(v@[i as int]@));
        i = i + 1;
    }
    assert(texts_of(v@).take(i as int) =~= texts_of(v@));
    out
}

/// A copy of an optional array description.
pub fn dup_dim(d: &Option<DimElement>) -> (r: Option<DimElement>)
    ensures
        opt_dim_same(r, *d),
{
    match d {
        None => None,
        Some(x) => Some(
            DimElement {
                dim: x.dim,
                dim_increment: x.dim_increment,
                dim_index: match &x.dim_index {
                    Some(v) => Some(dup_texts(v)),
                    None => None,
                },
                dim_name: copy_opt(&x.dim_name),
            },
        ),
    }
}

/// A copy of a field.
pub fn dup_field(f: &Field) -> (r: Field)
    ensures
        field_same(r, *f),
{
    let mut evs = Vec::new();
    let mut i: usize = 0;
    while i < f.enumerated_values.len()
        invariant
            i <= f.enumerated_values@.len(),
            set_views(evs@) == set_views(f.enumerated_values@).take(i as int),
        decreases f.enumerated_values.len() - i,
    {
        let ghost before = evs@;
        evs.push(copy_set(&f.enumerated_values[i]));
        assert(set_views(evs@) =~= set_views(before).push(f.enumerated_values@[i as int]@));
        assert(set_views(f.enumerated_values@).take(i + 1) =~= set_views(f.enumerated_values@).take(
            i as int,
        ).push(f.enumerated_values@[i as int]@));
        i = i + 1;
    }
    assert(set_views(f.enumerated_values@).take(i as int) =~= set_views(f.enumerated_values@));
    Field {
        name: f.name.clone(),
        description: copy_opt(&f.description),
        bit_offset: f.bit_offset,
        bit_width: f.bit_width,
        range_type: f.range_type,
        access: f.access,
        modified_write_values: f.modified_write_values,
        write_constraint: f.write_constraint,
        read_action: f.read_action,
        enumerated_values: evs,
        derived_from: copy_opt(&f.derived_from),
        dim: dup_dim(&f.dim),
    }
}

/// A copy of an optional list of fields.
pub fn dup_fields(fs: &Option<Vec<Field>>) -> (r: Option<Vec<Field>>)
    ensures
        fields_same(r, *fs),
{
    match fs {
        None => None,
        Some(v) => {
            let mut out: Vec<Field> = Vec::new();
            let mut i: usize = 0;
            while i < v.len()
                invariant
                    i <= v@.len(),
                    out@.len() == i,
                    forall|k: int| 0 <= k < i ==> field_same(#[trigger] out@[k], v@[k]),
                decreases v.len() - i,
            {
                out.push(dup_field(&v[i]));
                i = i + 1;
            }
            Some(out)
        },
    }
}

/// A copy of a register.
pub fn dup_register(r: &Register) -> (o: Register)
    ensures
        reg_same(o, *r),
{
    Register {
        name: r.name.clone(),
        display_name: copy_opt(&r.display_name),
        description: copy_opt(&r.description),
        alternate_group: copy_opt(&r.alternate_group),
        alternate_register: copy_opt(&r.alternate_register),
        address_offset: r.address_offset,
        properties: r.properties,
        datatype: copy_opt(&r.datatype),
        modified_write_values: r.modified_write_values,
        write_constraint: r.write_constraint,
        read_action: r.read_action,
        fields: dup_fields(&r.fields),
        derived_from: copy_opt(&r.derived_from),
        dim: dup_dim(&r.dim),
    }
}

/// A copy of a member of a block, with all that it holds.
pub fn dup_rc(rc: &RegisterCluster) -> (o: RegisterCluster)
    ensures
        rc_same(o, *rc),
{
    match rc {
        RegisterCluster::Register(r) => RegisterCluster::Register(dup_register(r)),
        RegisterCluster::Cluster(c) => RegisterCluster::Cluster(dup_cluster(c)),
    }
}

/// A copy of a cluster, with all that it holds.
pub fn dup_cluster(c: &Cluster) -> (o: Cluster)
    ensures
        rc_same(RegisterCluster::Cluster(o), RegisterCluster::Cluster(*c)),
{
    Cluster {
        name: c.name.clone(),
        description: copy_opt(&c.description),
        alternate_cluster: copy_opt(&c.alternate_cluster),
        header_struct_name: copy_opt(&c.header_struct_name),
        address_offset: c.address_offset,
        default_register_properties: c.default_register_properties,
        children: dup_rcs(&c.children),
        derived_from: copy_opt(&c.derived_from),
        dim: dup_dim(&c.dim),
    }
}

/// A copy of a list of members.
pub fn dup_rcs(v: &Vec<RegisterCluster>) -> (o: Vec<RegisterCluster>)
    ensures
        rcs_same(o@, v@),
    decreases v@,
{
    let mut out: Vec<RegisterCluster> = Vec::new();
    let mut i: usize = 0;
    while i < v.len()
        invariant
            i <= v@.len(),
            out@.len() == i,
            forall|k: int| 0 <= k < i ==> rc_same(#[trigger] out@[k], v@[k]),
        decreases v.len() - i,
    {
        let ghost vi = v@[i as int];
        assert(decreases_to!(v@ => vi));
        let o = match &v[i] {
            RegisterCluster::Register(r) => RegisterCluster::Register(dup_register(r)),
            RegisterCluster::Cluster(c) => {
                let children = dup_rcs(&c.children);
                RegisterCluster::Cluster(
                    Cluster {
                        name: c.name.clone(),
                        description: copy_opt(&c.description),
                        alternate_cluster: copy_opt(&c.alternate_cluster),
                        header_struct_name: copy_opt(&c.header_struct_name),
                        address_offset: c.address_offset,
                        default_register_properties: c.default_register_properties,
                        children,
                        derived_from: copy_opt(&c.derived_from),
                        dim: dup_dim(&c.dim),
                    },
                )
            },
        };
        out.push(o);
        i = i + 1;
    }
    out
}

/// The content of an optional list of address blocks.
pub open spec fn blocks_view(o: Option<Vec<AddressBlock>>) -> Option<Seq<AddressBlock>> {
    match o {
        Some(v) => Some(v@),
        None => None,
    }
}

/// Two peripherals hold the same content, at every depth.
pub open spec fn periph_same(a: Peripheral, b: Peripheral) -> bool {
    &&& a.name@ == b.name@
    &&& opt_view(a.display_name) == opt_view(b.display_name)
    &&& opt_view(a.version) == opt_view(b.version)
    &&& opt_view(a.description) == opt_view(b.description)
    &&& opt_view(a.alternate_peripheral) == opt_view(b.alternate_peripheral)
    &&& opt_view(a.group_name) == opt_view(b.group_name)
    &&& opt_view(a.prepend_to_name) == opt_view(b.prepend_to_name)
    &&& opt_view(a.append_to_name) == opt_view(b.append_to_name)
    &&& opt_view(a.header_struct_name) == opt_view(b.header_struct_name)
    &&& a.base_address == b.base_address
    &&& a.default_register_properties == b.default_register_properties
    &&& blocks_view(a.address_block) == blocks_view(b.address_block)
    &&& irq_views(a.interrupt@) == irq_views(b.interrupt@)
    &&& match (a.registers, b.registers) {
        (Some(x), Some(y)) => rcs_same(x@, y@),
        (None, None) => true,
        _ => false,
    }
    &&& opt_view(a.derived_from) == opt_view(b.derived_from)
    &&& opt_dim_same(a.dim, b.dim)
}

/// A copy of a list of address blocks.
fn dup_blocks(o: &Option<Vec<AddressBlock>>) -> (r: Option<Vec<AddressBlock>>)
    ensures
        blocks_view(r) == blocks_view(*o),
{
    match o {
        None => None,
        Some(v) => {
            let mut out: Vec<AddressBlock> = Vec::new();
            let mut i: usize = 0;
            while i < v.len()
                invariant
                    i <= v@.len(),
                    out@ == v@.take(i as int),
                decreases v.len() - i,
            {
                out.push(v[i]);
                i = i + 1;
                assert(out@ =~= v@.take(i as int));
            }
            assert(v@.take(i as int) =~= v@);
            Some(out)
        },
    }
}

/// A copy of a list of interrupts.
pub fn dup_interrupts(v: &Vec<Interrupt>) -> (r: Vec<Interrupt>)
    ensures
        irq_views(r@) == irq_views(v@),
{
    let mut out: Vec<Interrupt> = Vec::new();
    let mut i: usize = 0;
    while i < v.len()
        invariant
            i <= v@.len(),
            irq_views(out@) == irq_views(v@).take(i as int),
        decreases v.len() - i,
    {
        let ghost before = out@;
        out.push(v[i].duplicate());
        assert(irq_views(out@) =~= irq_views(before).push(v@[i as int]@));
        assert(irq_views(v@).take(i + 1) =~= irq_views(v@).take(i as int).push(v@[i as int]@));
        i = i + 1;
    }
    assert(irq_views(v@).take(i as int) =~= irq_views(v@));
    out
}

/// A copy of a peripheral, with all that it holds.
pub fn dup_peripheral(p: &Peripheral) -> (o: Peripheral)
    ensures
        periph_same(o, *p),
{
    Peripheral {
        name: p.name.clone(),
        display_name: copy_opt(&p.display_name),
        version: copy_opt(&p.version),
        description: copy_opt(&p.description),
        alternate_peripheral: copy_opt(&p.alternate_peripheral),
        group_name: copy_opt(&p.group_name),
        prepend_to_name: copy_opt(&p.prepend_to_name),
        append_to_name: copy_opt(&p.append_to_name),
        header_struct_name: copy_opt(&p.header_struct_name),
        base_address: p.base_address,
        default_register_properties: p.default_register_properties,
        address_block: dup_blocks(&p.address_block),
        interrupt: dup_interrupts(&p.interrupt),
        registers: match &p.registers {
            Some(v) => Some(dup_rcs(v)),
            None => None,
        },
        derived_from: copy_opt(&p.derived_from),
        dim: dup_dim(&p.dim),
    }
}

} // verus!
