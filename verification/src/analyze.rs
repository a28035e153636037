//! Finding peripherals, registers and fields of a device that are copies
//! of one another, and could be derived from one another instead.
use vstd::prelude::*;
use crate::model::{AddressBlock, Device, DimElement, EnumeratedValue, EnumeratedValues, Field, Peripheral, Register, RegisterCluster};
use crate::interrupts::svd_reader::Interrupt;
use crate::patch::duplicate::{blocks_view, field_same, fields_same, opt_dim_same, periph_same, rc_same, rcs_same, reg_same};
use crate::patch::peripheral::irq_views;
use crate::patch::builders::texts_of;
use crate::patch::enums::set_views;
use crate::text::{copy_str, opt_view, str_eq};

verus! {

/// What counts when two elements are compared.
#[derive(Debug, Default)]
pub struct CompareConfig {
    pub compare_description: bool,
    pub with_fields: bool,
}

/// The descriptions agree, when they are compared at all.
pub open spec fn desc_ok(a: Option<String>, b: Option<String>, c: CompareConfig) -> bool {
    !c.compare_description || opt_view(a) == opt_view(b)
}

/// Field `a` is a copy of field `b`: neither derives, and they agree on
/// array description, description (when compared), width, write effects,
/// access, write constraint, read action and enumerated values.
pub open spec fn field_copy(a: Field, b: Field, c: CompareConfig) -> bool {
    &&& opt_dim_same(a.dim, b.dim)
    &&& a.derived_from is None
    &&& b.derived_from is None
    &&& desc_ok(a.description, b.description, c)
    &&& a.bit_width == b.bit_width
    &&& a.modified_write_values == b.modified_write_values
    &&& a.access == b.access
    &&& a.write_constraint == b.write_constraint
    &&& a.read_action == b.read_action
    &&& set_views(a.enumerated_values@) == set_views(b.enumerated_values@)
}

/// The optional field lists `a` and `b` are copies, field by field.
pub open spec fn fields_copy(a: Option<Vec<Field>>, b: Option<Vec<Field>>, c: CompareConfig) -> bool {
    match (a, b) {
        (Some(x), Some(y)) => x@.len() == y@.len() && forall|i: int|
            0 <= i < x@.len() ==> field_copy(#[trigger] x@[i], y@[i], c),
        (None, None) => true,
        _ => false,
    }
}

/// Register `a` is a copy of register `b`: neither derives, and they agree
/// on array description, description (when compared), write effects,
/// properties, write constraint, read action and fields.
pub open spec fn reg_copy(a: Register, b: Register, c: CompareConfig) -> bool {
    &&& opt_dim_same(a.dim, b.dim)
    &&& a.derived_from is None
    &&& b.derived_from is None
    &&& desc_ok(a.description, b.description, c)
    &&& a.modified_write_values == b.modified_write_values
    &&& a.properties == b.properties
    &&& a.write_constraint == b.write_constraint
    &&& a.read_action == b.read_action
    &&& fields_copy(a.fields, b.fields, c)
}

/// A field counts as a copy of another only when neither derives and both
/// have the same width, write effects, access, write constraint, read action
/// and enumerated values, and, when descriptions are compared, the same
/// description.
pub proof fn law_field_copies_agree(a: Field, b: Field, c: CompareConfig)
    requires
        field_copy(a, b, c),
    ensures
        a.derived_from is None && b.derived_from is None,
        a.bit_width == b.bit_width,
        a.modified_write_values == b.modified_write_values,
        a.access == b.access,
        a.write_constraint == b.write_constraint,
        a.read_action == b.read_action,
        set_views(a.enumerated_values@) == set_views(b.enumerated_values@),
        c.compare_description ==> opt_view(a.description) == opt_view(b.description),
{
}

/// A register counts as a copy of another only when neither derives, both
/// have the same write effects, properties, write constraint and read action,
/// and their fields are copies one by one.
pub proof fn law_register_copies_agree(a: Register, b: Register, c: CompareConfig)
    requires
        reg_copy(a, b, c),
    ensures
        a.derived_from is None && b.derived_from is None,
        a.modified_write_values == b.modified_write_values,
        a.properties == b.properties,
        a.write_constraint == b.write_constraint,
        a.read_action == b.read_action,
        a.fields is Some <==> b.fields is Some,
        c.compare_description ==> opt_view(a.description) == opt_view(b.description),
        forall|i: int|
            0 <= i < fields_of(a).len() ==> i < fields_of(b).len() && field_copy(
                #[trigger] fields_of(a)[i],
                fields_of(b)[i],
                c,
            ),
{
}

/// A peripheral counts as a copy of another only when neither derives and,
/// when descriptions are compared, both have the same description.
pub proof fn law_peripheral_copies_agree(a: Peripheral, b: Peripheral, c: CompareConfig)
    requires
        periph_copy(a, b, c),
    ensures
        a.derived_from is None && b.derived_from is None,
        a.registers is Some <==> b.registers is Some,
        c.compare_description ==> opt_view(a.description) == opt_view(b.description),
{
}

/// Member `a` is a copy of member `b`, at every depth.
pub open spec fn rc_copy(a: RegisterCluster, b: RegisterCluster, c: CompareConfig) -> bool
    decreases a,
{
    match (a, b) {
        (RegisterCluster::Register(x), RegisterCluster::Register(y)) => reg_copy(x, y, c),
        (RegisterCluster::Cluster(x), RegisterCluster::Cluster(y)) => {
            &&& opt_dim_same(x.dim, y.dim)
            &&& x.derived_from is None
            &&& y.derived_from is None
            &&& desc_ok(x.description, y.description, c)
            &&& x.children@.len() == y.children@.len()
            &&& forall|i: int|
                0 <= i < x.children@.len() ==> rc_copy(#[trigger] x.children@[i], y.children@[i], c)
        },
        _ => false,
    }
}

/// Peripheral `a` is a copy of peripheral `b`: neither derives, and they
/// agree on array description, description (when compared) and registers.
pub open spec fn periph_copy(a: Peripheral, b: Peripheral, c: CompareConfig) -> bool {
    &&& opt_dim_same(a.dim, b.dim)
    &&& a.derived_from is None
    &&& b.derived_from is None
    &&& desc_ok(a.description, b.description, c)
    &&& match (a.registers, b.registers) {
        (Some(x), Some(y)) => x@.len() == y@.len() && forall|i: int|
            0 <= i < x@.len() ==> rc_copy(#[trigger] x@[i], y@[i], c),
        (None, None) => true,
        _ => false,
    }
}

/// Whether an element is a copy of another one of its kind.
pub trait Same {
    /// This element is a copy of `other`.
    spec fn copy_of(&self, other: &Self, config: &CompareConfig) -> bool;

    /// Whether this element is a copy of `other`.
    fn is_copy(&self, other: &Self, config: &CompareConfig) -> (r: bool)
        ensures
            r == self.copy_of(other, config),
    ;
}

fn opt_text_eq(a: &Option<String>, b: &Option<String>) -> (r: bool)
    ensures
        r == (opt_view(*a) == opt_view(*b)),
{
    match (a, b) {
        (Some(x), Some(y)) => str_eq(x.as_str(), y.as_str()),
        (None, None) => true,
        _ => false,
    }
}

fn desc_eq(a: &Option<String>, b: &Option<String>, c: &CompareConfig) -> (r: bool)
    ensures
        r == desc_ok(*a, *b, *c),
{
    !c.compare_description || opt_text_eq(a, b)
}

fn texts_eq(a: &Vec<String>, b: &Vec<String>) -> (r: bool)
    ensures
        r == (texts_of(a@) == texts_of(b@)),
{
    if a.len() != b.len() {
        assert(texts_of(a@).len() != texts_of(b@).len());
        return false;
    }
    let mut i: usize = 0;
    while i < a.len()
        invariant
            a@.len() == b@.len(),
            i <= a@.len(),
            forall|j: int| 0 <= j < i ==> a@[j]@ == b@[j]@,
        decreases a.len() - i,
    {
        if !str_eq(a[i].as_str(), b[i].as_str()) {
            assert(texts_of(a@)[i as int] != texts_of(b@)[i as int]);
            return false;
        }
        i = i + 1;
    }
    assert(texts_of(a@) =~= texts_of(b@));
    true
}

fn dims_eq(a: &Option<DimElement>, b: &Option<DimElement>) -> (r: bool)
    ensures
        r == opt_dim_same(*a, *b),
{
    match (a, b) {
        (Some(x), Some(y)) => {
            x.dim == y.dim && x.dim_increment == y.dim_increment && opt_text_eq(&x.dim_name, &y.dim_name) && match (
                &x.dim_index,
                &y.dim_index,
            ) {
                (Some(u), Some(v)) => texts_eq(u, v),
                (None, None) => true,
                _ => false,
            }
        },
        (None, None) => true,
        _ => false,
    }
}

fn value_eq(a: &EnumeratedValue, b: &EnumeratedValue) -> (r: bool)
    ensures
        r == (a@ == b@),
{
    str_eq(a.name.as_str(), b.name.as_str()) && opt_text_eq(&a.description, &b.description) && a.value == b.value
        && a.is_default == b.is_default
}

fn set_eq(a: &EnumeratedValues, b: &EnumeratedValues) -> (r: bool)
    ensures
        r == (a@ == b@),
{
    if !(opt_text_eq(&a.name, &b.name) && a.usage == b.usage && opt_text_eq(&a.derived_from, &b.derived_from)) {
        return false;
    }
    if a.values.len() != b.values.len() {
        assert(a@.values.len() != b@.values.len());
        return false;
    }
    let mut i: usize = 0;
    while i < a.values.len()
        invariant
            a.values@.len() == b.values@.len(),
            i <= a.values@.len(),
            forall|j: int| 0 <= j < i ==> a.values@[j]@ == b.values@[j]@,
        decreases a.values.len() - i,
    {
        if !value_eq(&a.values[i], &b.values[i]) {
            assert(a@.values[i as int] != b@.values[i as int]);
            return false;
        }
        i = i + 1;
    }
    assert(a@.values =~= b@.values);
    true
}

fn sets_eq(a: &Vec<EnumeratedValues>, b: &Vec<EnumeratedValues>) -> (r: bool)
    ensures
        r == (set_views(a@) == set_views(b@)),
{
    if a.len() != b.len() {
        assert(set_views(a@).len() != set_views(b@).len());
        return false;
    }
    let mut i: usize = 0;
    while i < a.len()
        invariant
            a@.len() == b@.len(),
            i <= a@.len(),
            forall|j: int| 0 <= j < i ==> a@[j]@ == b@[j]@,
        decreases a.len() - i,
    {
        if !set_eq(&a[i], &b[i]) {
            assert(set_views(a@)[i as int] != set_views(b@)[i as int]);
            return false;
        }
        i = i + 1;
    }
    assert(set_views(a@) =~= set_views(b@));
    true
}

impl Same for Field {
    open spec fn copy_of(&self, other: &Self, config: &CompareConfig) -> bool {
        field_copy(*self, *other, *config)
    }

    fn is_copy(&self, other: &Self, config: &CompareConfig) -> (r: bool) {
        dims_eq(&self.dim, &other.dim) && self.derived_from.is_none() && other.derived_from.is_none() && desc_eq(
            &self.description,
            &other.description,
            config,
        ) && self.bit_width == other.bit_width && self.modified_write_values == other.modified_write_values
            && self.access == other.access && self.write_constraint == other.write_constraint && self.read_action
            == other.read_action && sets_eq(&self.enumerated_values, &other.enumerated_values)
    }
}

fn fields_eq(a: &Option<Vec<Field>>, b: &Option<Vec<Field>>, c: &CompareConfig) -> (r: bool)
    ensures
        r == fields_copy(*a, *b, *c),
{
    match (a, b) {
        (Some(x), Some(y)) => {
            if x.len() != y.len() {
                return false;
            }
            let mut i: usize = 0;
            while i < x.len()
                invariant
                    *a == Some(*x),
                    *b == Some(*y),
                    x@.len() == y@.len(),
                    i <= x@.len(),
                    forall|j: int| 0 <= j < i ==> field_copy(#[trigger] x@[j], y@[j], *c),
                decreases x.len() - i,
            {
                if !x[i].is_copy(&y[i], c) {
                    return false;
                }
                i = i + 1;
            }
            true
        },
        (None, None) => true,
        _ => false,
    }
}

impl Same for Register {
    open spec fn copy_of(&self, other: &Self, config: &CompareConfig) -> bool {
        reg_copy(*self, *other, *config)
    }

    fn is_copy(&self, other: &Self, config: &CompareConfig) -> (r: bool) {
        dims_eq(&self.dim, &other.dim) && self.derived_from.is_none() && other.derived_from.is_none() && desc_eq(
            &self.description,
            &other.description,
            config,
        ) && self.modified_write_values == other.modified_write_values && self.properties.size
            == other.properties.size && self.properties.access == other.properties.access
            && self.properties.protection == other.properties.protection && self.properties.reset_value
            == other.properties.reset_value && self.properties.reset_mask == other.properties.reset_mask
            && self.write_constraint == other.write_constraint && self.read_action == other.read_action && fields_eq(
            &self.fields,
            &other.fields,
            config,
        )
    }
}

/// Whether the members `a` are copies of the members `b`, one by one.
fn members_eq(a: &Vec<RegisterCluster>, b: &Vec<RegisterCluster>, c: &CompareConfig) -> (r: bool)
    ensures
        r == (a@.len() == b@.len() && forall|i: int| 0 <= i < a@.len() ==> rc_copy(#[trigger] a@[i], b@[i], *c)),
    decreases a@,
{
    if a.len() != b.len() {
        return false;
    }
    let mut i: usize = 0;
    while i < a.len()
        invariant
            a@.len() == b@.len(),
            i <= a@.len(),
            forall|j: int| 0 <= j < i ==> rc_copy(#[trigger] a@[j], b@[j], *c),
        decreases a.len() - i,
    {
        let ghost ai = a@[i as int];
        assert(decreases_to!(a@ => ai));
        let same = match (&a[i], &b[i]) {
            (RegisterCluster::Register(x), RegisterCluster::Register(y)) => x.is_copy(y, c),
            (RegisterCluster::Cluster(x), RegisterCluster::Cluster(y)) => dims_eq(&x.dim, &y.dim)
                && x.derived_from.is_none() && y.derived_from.is_none() && desc_eq(
                &x.description,
                &y.description,
                c,
            ) && members_eq(&x.children, &y.children, c),
            _ => false,
        };
        if !same {
            return false;
        }
        i = i + 1;
    }
    true
}

impl Same for RegisterCluster {
    open spec fn copy_of(&self, other: &Self, config: &CompareConfig) -> bool {
        rc_copy(*self, *other, *config)
    }

    fn is_copy(&self, other: &Self, config: &CompareConfig) -> (r: bool) {
        match (self, other) {
            (RegisterCluster::Register(x), RegisterCluster::Register(y)) => x.is_copy(y, config),
            (RegisterCluster::Cluster(x), RegisterCluster::Cluster(y)) => dims_eq(&x.dim, &y.dim)
                && x.derived_from.is_none() && y.derived_from.is_none() && desc_eq(
                &x.description,
                &y.description,
                config,
            ) && members_eq(&x.children, &y.children, config),
            _ => false,
        }
    }
}

impl Same for Peripheral {
    open spec fn copy_of(&self, other: &Self, config: &CompareConfig) -> bool {
        periph_copy(*self, *other, *config)
    }

    fn is_copy(&self, other: &Self, config: &CompareConfig) -> (r: bool) {
        dims_eq(&self.dim, &other.dim) && self.derived_from.is_none() && other.derived_from.is_none() && desc_eq(
            &self.description,
            &other.description,
            config,
        ) && match (&self.registers, &other.registers) {
            (Some(x), Some(y)) => members_eq(x, y, config),
            (None, None) => true,
            _ => false,
        }
    }
}

/// Whether two fields hold the same content (see [`field_same`]).
fn same_field(a: &Field, b: &Field) -> (r: bool)
    ensures
        r == field_same(*a, *b),
{
    str_eq(a.name.as_str(), b.name.as_str()) && opt_text_eq(&a.description, &b.description) && a.bit_offset
        == b.bit_offset && a.bit_width == b.bit_width && a.range_type == b.range_type && a.access == b.access
        && a.modified_write_values == b.modified_write_values && a.write_constraint == b.write_constraint
        && a.read_action == b.read_action && sets_eq(&a.enumerated_values, &b.enumerated_values) && opt_text_eq(
        &a.derived_from,
        &b.derived_from,
    ) && dims_eq(&a.dim, &b.dim)
}

/// Whether two registers hold the same content (see [`reg_same`]).
fn same_reg(a: &Register, b: &Register) -> (r: bool)
    ensures
        r == reg_same(*a, *b),
{
    let head = str_eq(a.name.as_str(), b.name.as_str()) && opt_text_eq(&a.display_name, &b.display_name)
        && opt_text_eq(&a.description, &b.description) && opt_text_eq(&a.alternate_group, &b.alternate_group)
        && opt_text_eq(&a.alternate_register, &b.alternate_register) && a.address_offset == b.address_offset
        && a.properties.size == b.properties.size && a.properties.access == b.properties.access
        && a.properties.protection == b.properties.protection && a.properties.reset_value
        == b.properties.reset_value && a.properties.reset_mask == b.properties.reset_mask && opt_text_eq(
        &a.datatype,
        &b.datatype,
    ) && a.modified_write_values == b.modified_write_values && a.write_constraint == b.write_constraint
        && a.read_action == b.read_action && opt_text_eq(&a.derived_from, &b.derived_from) && dims_eq(&a.dim, &b.dim);
    if !head {
        return false;
    }
    match (&a.fields, &b.fields) {
        (Some(x), Some(y)) => {
            if x.len() != y.len() {
                return false;
            }
            let mut i: usize = 0;
            while i < x.len()
                invariant
                    a.fields == Some(*x),
                    b.fields == Some(*y),
                    x@.len() == y@.len(),
                    i <= x@.len(),
                    forall|j: int| 0 <= j < i ==> field_same(#[trigger] x@[j], y@[j]),
                decreases x.len() - i,
            {
                if !same_field(&x[i], &y[i]) {
                    assert(!fields_same(a.fields, b.fields));
                    return false;
                }
                i = i + 1;
            }
            true
        },
        (None, None) => true,
        _ => false,
    }
}

/// Whether two lists of members hold the same content (see [`rcs_same`]).
fn same_members(a: &Vec<RegisterCluster>, b: &Vec<RegisterCluster>) -> (r: bool)
    ensures
        r == rcs_same(a@, b@),
    decreases a@,
{
    if a.len() != b.len() {
        return false;
    }
    let mut i: usize = 0;
    while i < a.len()
        invariant
            a@.len() == b@.len(),
            i <= a@.len(),
            forall|j: int| 0 <= j < i ==> rc_same(#[trigger] a@[j], b@[j]),
        decreases a.len() - i,
    {
        let ghost ai = a@[i as int];
        assert(decreases_to!(a@ => ai));
        let same = match (&a[i], &b[i]) {
            (RegisterCluster::Register(x), RegisterCluster::Register(y)) => same_reg(x, y),
            (RegisterCluster::Cluster(x), RegisterCluster::Cluster(y)) => str_eq(x.name.as_str(), y.name.as_str())
                && opt_text_eq(&x.description, &y.description) && opt_text_eq(
                &x.alternate_cluster,
                &y.alternate_cluster,
            ) && opt_text_eq(&x.header_struct_name, &y.header_struct_name) && x.address_offset == y.address_offset
                && x.default_register_properties.size == y.default_register_properties.size
                && x.default_register_properties.access == y.default_register_properties.access
                && x.default_register_properties.protection == y.default_register_properties.protection
                && x.default_register_properties.reset_value == y.default_register_properties.reset_value
                && x.default_register_properties.reset_mask == y.default_register_properties.reset_mask
                && opt_text_eq(&x.derived_from, &y.derived_from) && dims_eq(&x.dim, &y.dim) && same_members(
                &x.children,
                &y.children,
            ),
            _ => false,
        };
        if !same {
            return false;
        }
        i = i + 1;
    }
    true
}

fn same_blocks(a: &Option<Vec<AddressBlock>>, b: &Option<Vec<AddressBlock>>) -> (r: bool)
    ensures
        r == (blocks_view(*a) == blocks_view(*b)),
{
    match (a, b) {
        (Some(x), Some(y)) => {
            if x.len() != y.len() {
                assert(x@.len() != y@.len());
                return false;
            }
            let mut i: usize = 0;
            while i < x.len()
                invariant
                    *a == Some(*x),
                    *b == Some(*y),
                    x@.len() == y@.len(),
                    i <= x@.len(),
                    forall|j: int| 0 <= j < i ==> x@[j] == y@[j],
                decreases x.len() - i,
            {
                let (p, q) = (x[i], y[i]);
                if !(p.offset == q.offset && p.size == q.size && p.usage == q.usage && p.protection == q.protection) {
                    assert(x@[i as int] != y@[i as int]);
                    return false;
                }
                i = i + 1;
            }
            assert(x@ =~= y@);
            true
        },
        (None, None) => true,
        _ => false,
    }
}

fn same_irqs(a: &Vec<Interrupt>, b: &Vec<Interrupt>) -> (r: bool)
    ensures
        r == (irq_views(a@) == irq_views(b@)),
{
    if a.len() != b.len() {
        assert(irq_views(a@).len() != irq_views(b@).len());
        return false;
    }
    let mut i: usize = 0;
    while i < a.len()
        invariant
            a@.len() == b@.len(),
            i <= a@.len(),
            forall|j: int| 0 <= j < i ==> a@[j]@ == b@[j]@,
        decreases a.len() - i,
    {
        if !(str_eq(a[i].name.as_str(), b[i].name.as_str()) && opt_text_eq(&a[i].description, &b[i].description)
            && a[i].value == b[i].value) {
            assert(irq_views(a@)[i as int] != irq_views(b@)[i as int]);
            return false;
        }
        i = i + 1;
    }
    assert(irq_views(a@) =~= irq_views(b@));
    true
}

/// Whether two peripherals hold the same content (see [`periph_same`]).
fn same_periph(a: &Peripheral, b: &Peripheral) -> (r: bool)
    ensures
        r == periph_same(*a, *b),
{
    str_eq(a.name.as_str(), b.name.as_str()) && opt_text_eq(&a.display_name, &b.display_name) && opt_text_eq(
        &a.version,
        &b.version,
    ) && opt_text_eq(&a.description, &b.description) && opt_text_eq(
        &a.alternate_peripheral,
        &b.alternate_peripheral,
    ) && opt_text_eq(&a.group_name, &b.group_name) && opt_text_eq(&a.prepend_to_name, &b.prepend_to_name)
        && opt_text_eq(&a.append_to_name, &b.append_to_name) && opt_text_eq(
        &a.header_struct_name,
        &b.header_struct_name,
    ) && a.base_address == b.base_address && a.default_register_properties.size
        == b.default_register_properties.size && a.default_register_properties.access
        == b.default_register_properties.access && a.default_register_properties.protection
        == b.default_register_properties.protection && a.default_register_properties.reset_value
        == b.default_register_properties.reset_value && a.default_register_properties.reset_mask
        == b.default_register_properties.reset_mask && same_blocks(&a.address_block, &b.address_block)
        && same_irqs(&a.interrupt, &b.interrupt) && match (&a.registers, &b.registers) {
        (Some(x), Some(y)) => same_members(x, y),
        (None, None) => true,
        _ => false,
    } && opt_text_eq(&a.derived_from, &b.derived_from) && dims_eq(&a.dim, &b.dim)
}

/// All registers of the members `cs`, at any depth, in order.
pub open spec fn flat_regs(cs: Seq<RegisterCluster>) -> Seq<Register>
    decreases cs,
{
    if cs.len() == 0 {
        Seq::empty()
    } else {
        flat_regs(cs.drop_last()) + match cs.last() {
            RegisterCluster::Register(r) => seq![r],
            RegisterCluster::Cluster(c) => {
                proof {
                    assert(decreases_to!(cs => cs[cs.len() - 1]));
                }
                flat_regs(c.children@)
            },
        }
    }
}

/// The registers that references point to.
pub open spec fn derefs(s: Seq<&Register>) -> Seq<Register> {
    s.map_values(|r: &Register| *r)
}

/// Appends all registers of the members `cs`, at any depth (see
/// [`flat_regs`]).
fn collect_all<'a>(cs: &'a Vec<RegisterCluster>, out: &mut Vec<&'a Register>)
    ensures
        derefs(final(out)@) == derefs(old(out)@) + flat_regs(cs@),
    decreases cs@,
{
    let ghost start = derefs(out@);
    let mut i: usize = 0;
    assert(cs@.take(0) =~= Seq::<RegisterCluster>::empty());
    assert(start + flat_regs(cs@.take(0)) =~= start);
    while i < cs.len()
        invariant
            i <= cs@.len(),
            derefs(out@) == start + flat_regs(cs@.take(i as int)),
        decreases cs.len() - i,
    {
        let ghost ci = cs@[i as int];
        assert(decreases_to!(cs@ => ci));
        assert(cs@.take(i + 1).drop_last() =~= cs@.take(i as int));
        assert(cs@.take(i + 1).last() == ci);
        let ghost before = derefs(out@);
        match &cs[i] {
            RegisterCluster::Register(r) => {
                out.push(r);
                assert(derefs(out@) =~= before + seq![*r]);
            },
            RegisterCluster::Cluster(c) => {
                collect_all(&c.children, out);
            },
        }
        assert(derefs(out@) =~= start + flat_regs(cs@.take(i + 1)));
        i = i + 1;
    }
    assert(cs@.take(i as int) =~= cs@);
}

/// The first place `j` from `from` on where `s[j]` is a copy of `s[i]`
/// by `rel`.
pub open spec fn first_match<T>(s: Seq<T>, i: int, from: int, rel: spec_fn(T, T) -> bool) -> Option<int>
    decreases s.len() - from,
{
    if from < 0 || from >= s.len() {
        None
    } else if rel(s[from], s[i]) {
        Some(from)
    } else {
        first_match(s, i, from + 1, rel)
    }
}

/// The messages for the elements `s[..k]` that have a later copy, each
/// written by `line` from the element and its first later copy.
pub open spec fn copy_msgs<T>(s: Seq<T>, rel: spec_fn(T, T) -> bool, line: spec_fn(T, T) -> Seq<char>, k: int) -> Seq<
    Seq<char>,
>
    decreases k,
{
    if k <= 0 {
        Seq::empty()
    } else {
        copy_msgs(s, rel, line, k - 1) + match first_match(s, k - 1, k, rel) {
            Some(j) => seq![line(s[k - 1], s[j])],
            None => Seq::empty(),
        }
    }
}

/// `x` equals, by `eq`, some element found as the first later copy of an
/// element of `s`.
pub open spec fn copied<T>(s: Seq<T>, rel: spec_fn(T, T) -> bool, eq: spec_fn(T, T) -> bool, x: T) -> bool {
    exists|i: int|
        0 <= i < s.len() && (#[trigger] first_match(s, i, i + 1, rel) is Some) && eq(s[first_match(s, i, i + 1, rel)->0], x)
}

/// Copies among peripherals.
pub open spec fn prel(c: CompareConfig) -> spec_fn(Peripheral, Peripheral) -> bool {
    |a: Peripheral, b: Peripheral| periph_copy(a, b, c)
}

/// Copies among registers.
pub open spec fn rrel(c: CompareConfig) -> spec_fn(Register, Register) -> bool {
    |a: Register, b: Register| reg_copy(a, b, c)
}

/// Copies among fields.
pub open spec fn frel(c: CompareConfig) -> spec_fn(Field, Field) -> bool {
    |a: Field, b: Field| field_copy(a, b, c)
}

/// The message for peripheral `p2`, a copy of `p1`.
pub open spec fn pline() -> spec_fn(Peripheral, Peripheral) -> Seq<char> {
    |p1: Peripheral, p2: Peripheral| seq!['P', 'e', 'r', 'i', 'p', 'h', 'e', 'r', 'a', 'l', ' '] + p2.name@ + seq![
        ' ',
        '=',
        '=',
        ' ',
    ] + p1.name@
}

/// The message for register `r2` of peripheral `p`, a copy of `r1`.
pub open spec fn rline(p: Peripheral) -> spec_fn(Register, Register) -> Seq<char> {
    |r1: Register, r2: Register|
        seq!['I', 'n', ' ', 'p', 'e', 'r', 'i', 'p', 'h', 'e', 'r', 'a', 'l', ' '] + p.name@ + seq![
            ':',
            ' ',
            'r',
            'e',
            'g',
            'i',
            's',
            't',
            'e',
            'r',
            ' ',
        ] + r1.name@ + seq![' ', '=', '=', ' '] + r2.name@
}

/// The message for field `f2` of register `r` of peripheral `p`, a copy of
/// `f1`.
pub open spec fn fline(p: Peripheral, r: Register) -> spec_fn(Field, Field) -> Seq<char> {
    |f1: Field, f2: Field|
        seq!['I', 'n', ' ', 'r', 'e', 'g', 'i', 's', 't', 'e', 'r', ' '] + p.name@ + seq!['.'] + r.name@ + seq![
            ':',
            ' ',
            'f',
            'i',
            'e',
            'l',
            'd',
            ' ',
        ] + f1.name@ + seq![' ', '=', '=', ' '] + f2.name@
}

/// The registers of peripheral `p`, at any depth.
pub open spec fn all_regs(p: Peripheral) -> Seq<Register> {
    match p.registers {
        Some(v) => flat_regs(v@),
        None => Seq::empty(),
    }
}

/// The fields of register `r`.
pub open spec fn fields_of(r: Register) -> Seq<Field> {
    match r.fields {
        Some(v) => v@,
        None => Seq::empty(),
    }
}

/// The field messages for the registers `regs[..k]` of peripheral `p` that
/// are not found copies of others.
pub open spec fn field_findings(p: Peripheral, regs: Seq<Register>, c: CompareConfig, k: int) -> Seq<Seq<char>>
    decreases k,
{
    if k <= 0 {
        Seq::empty()
    } else {
        field_findings(p, regs, c, k - 1) + if copied(regs, rrel(c), |a: Register, b: Register| reg_same(a, b), regs[k - 1]) {
            Seq::empty()
        } else {
            let fs = fields_of(regs[k - 1]);
            copy_msgs(fs, frel(c), fline(p, regs[k - 1]), fs.len() as int)
        }
    }
}

/// The messages about the registers and fields of peripheral `p`.
pub open spec fn periph_findings(p: Peripheral, c: CompareConfig) -> Seq<Seq<char>> {
    let regs = all_regs(p);
    copy_msgs(regs, rrel(c), rline(p), regs.len() as int) + if c.with_fields {
        field_findings(p, regs, c, regs.len() as int)
    } else {
        Seq::empty()
    }
}

/// The messages about the peripherals `ps[..k]` that are not found copies
/// of others.
pub open spec fn per_periph(ps: Seq<Peripheral>, c: CompareConfig, k: int) -> Seq<Seq<char>>
    decreases k,
{
    if k <= 0 {
        Seq::empty()
    } else {
        per_periph(ps, c, k - 1) + if copied(ps, prel(c), |a: Peripheral, b: Peripheral| periph_same(a, b), ps[k - 1]) {
            Seq::empty()
        } else {
            periph_findings(ps[k - 1], c)
        }
    }
}

/// Everything the analysis of the peripherals `ps` reports: first the
/// peripherals that are copies of an earlier one, then, for each
/// peripheral that is no such copy, its registers that copy an earlier one
/// and, when fields are compared, the fields of each register (that is no
/// such copy) that copy an earlier one.
pub open spec fn analysis(ps: Seq<Peripheral>, c: CompareConfig) -> Seq<Seq<char>> {
    copy_msgs(ps, prel(c), pline(), ps.len() as int) + per_periph(ps, c, ps.len() as int)
}

/// The texts of a list of strings.
pub open spec fn texts(v: Seq<String>) -> Seq<Seq<char>> {
    v.map_values(|x: String| x@)
}

/// The place of the first peripheral after `i` that copies peripheral `i`.
fn first_periph_copy(ps: &Vec<Peripheral>, i: usize, c: &CompareConfig) -> (r: Option<usize>)
    requires
        i < ps@.len(),
    ensures
        match r {
            Some(j) => i < j < ps@.len() && first_match(ps@, i as int, i + 1, prel(*c)) == Some(j as int),
            None => first_match(ps@, i as int, i + 1, prel(*c)) is None,
        },
{
    assert(i < ps.len());
    let mut j = i + 1;
    while j < ps.len()
        invariant
            i < j <= ps@.len(),
            first_match(ps@, i as int, i + 1, prel(*c)) == first_match(ps@, i as int, j as int, prel(*c)),
        decreases ps.len() - j,
    {
        if ps[j].is_copy(&ps[i], c) {
            return Some(j);
        }
        j = j + 1;
    }
    None
}

/// The place of the first register after `i` that copies register `i`.
fn first_reg_copy(rs: &Vec<&Register>, i: usize, c: &CompareConfig) -> (r: Option<usize>)
    requires
        i < rs@.len(),
    ensures
        match r {
            Some(j) => i < j < rs@.len() && first_match(derefs(rs@), i as int, i + 1, rrel(*c)) == Some(j as int),
            None => first_match(derefs(rs@), i as int, i + 1, rrel(*c)) is None,
        },
{
    assert(i < rs.len());
    let mut j = i + 1;
    while j < rs.len()
        invariant
            i < j <= rs@.len(),
            first_match(derefs(rs@), i as int, i + 1, rrel(*c)) == first_match(derefs(rs@), i as int, j as int, rrel(*c)),
        decreases rs.len() - j,
    {
        if rs[j].is_copy(rs[i], c) {
            return Some(j);
        }
        j = j + 1;
    }
    None
}

/// The place of the first field after `i` that copies field `i`.
fn first_field_copy(fs: &Vec<Field>, i: usize, c: &CompareConfig) -> (r: Option<usize>)
    requires
        i < fs@.len(),
    ensures
        match r {
            Some(j) => i < j < fs@.len() && first_match(fs@, i as int, i + 1, frel(*c)) == Some(j as int),
            None => first_match(fs@, i as int, i + 1, frel(*c)) is None,
        },
{
    assert(i < fs.len());
    let mut j = i + 1;
    while j < fs.len()
        invariant
            i < j <= fs@.len(),
            first_match(fs@, i as int, i + 1, frel(*c)) == first_match(fs@, i as int, j as int, frel(*c)),
        decreases fs.len() - j,
    {
        if fs[j].is_copy(&fs[i], c) {
            return Some(j);
        }
        j = j + 1;
    }
    None
}

/// `found` holds, for each `s[i]` with `i < k` that has a later copy by
/// `rel`, the place of its first later copy, and nothing else.
#[verifier::opaque]
pub open spec fn tracks<T>(s: Seq<T>, rel: spec_fn(T, T) -> bool, found: Seq<usize>, k: int) -> bool {
    &&& forall|q: int|
        0 <= q < found.len() ==> exists|i: int|
            0 <= i < k && #[trigger] first_match(s, i, i + 1, rel) == Some(#[trigger] found[q] as int)
    &&& forall|i: int|
        0 <= i < k && (#[trigger] first_match(s, i, i + 1, rel) is Some) ==> exists|q: int|
            0 <= q < found.len() && found[q] as int == first_match(s, i, i + 1, rel)->0
}

/// An element without a later copy leaves `tracks` as it was.
proof fn lemma_tracks_none<T>(s: Seq<T>, rel: spec_fn(T, T) -> bool, found: Seq<usize>, k: int)
    requires
        0 <= k,
        tracks(s, rel, found, k),
        first_match(s, k, k + 1, rel) is None,
    ensures
        tracks(s, rel, found, k + 1),
{
    reveal(tracks);
    assert forall|q: int| #![trigger found[q]] 0 <= q < found.len() implies exists|i: int|
        0 <= i < k + 1 && #[trigger] first_match(s, i, i + 1, rel) == Some(found[q] as int) by {
        let i = choose|i: int| 0 <= i < k && #[trigger] first_match(s, i, i + 1, rel) == Some(found[q] as int);
        assert(0 <= i < k + 1 && first_match(s, i, i + 1, rel) == Some(found[q] as int));
    }
}

/// The first later copy `j` of element `k` extends `tracks` by one place.
proof fn lemma_tracks_push<T>(s: Seq<T>, rel: spec_fn(T, T) -> bool, found: Seq<usize>, k: int, j: usize)
    requires
        0 <= k,
        tracks(s, rel, found, k),
        first_match(s, k, k + 1, rel) == Some(j as int),
    ensures
        tracks(s, rel, found.push(j), k + 1),
{
    reveal(tracks);
    let f2 = found.push(j);
    assert forall|q: int| #![trigger f2[q]] 0 <= q < f2.len() implies exists|i: int|
        0 <= i < k + 1 && #[trigger] first_match(s, i, i + 1, rel) == Some(f2[q] as int) by {
        if q < found.len() {
            assert(f2[q] == found[q]);
            let i = choose|i: int| 0 <= i < k && #[trigger] first_match(s, i, i + 1, rel) == Some(found[q] as int);
            assert(0 <= i < k + 1 && first_match(s, i, i + 1, rel) == Some(f2[q] as int));
        } else {
            assert(first_match(s, k, k + 1, rel) == Some(f2[q] as int));
        }
    }
    assert forall|i: int| 0 <= i < k + 1 && (#[trigger] first_match(s, i, i + 1, rel) is Some) implies exists|q: int|
        0 <= q < f2.len() && f2[q] as int == first_match(s, i, i + 1, rel)->0 by {
        if i < k {
            let q = choose|q: int| 0 <= q < found.len() && found[q] as int == first_match(s, i, i + 1, rel)->0;
            assert(f2[q] == found[q]);
        } else {
            assert(f2[found.len() as int] == j);
        }
    }
}

/// Appends `t` to `out`.
fn push_text(out: &mut String, t: &str)
    ensures
        final(out)@ == old(out)@ + t@,
{
    out.append(t);
}

/// The message for peripheral `p2`, a copy of `p1`.
fn periph_line(p1: &Peripheral, p2: &Peripheral) -> (m: String)
    ensures
        m@ == pline()(*p1, *p2),
{
    proof {
        reveal_strlit("Peripheral ");
        reveal_strlit(" == ");
    }
    let mut m = copy_str("Peripheral ");
    push_text(&mut m, p2.name.as_str());
    push_text(&mut m, " == ");
    push_text(&mut m, p1.name.as_str());
    assert(m@ =~= pline()(*p1, *p2));
    m
}

/// The message for register `r2` of peripheral `p`, a copy of `r1`.
fn reg_line(p: &Peripheral, r1: &Register, r2: &Register) -> (m: String)
    ensures
        m@ == rline(*p)(*r1, *r2),
{
    proof {
        reveal_strlit("In peripheral ");
        reveal_strlit(": register ");
        reveal_strlit(" == ");
    }
    let mut m = copy_str("In peripheral ");
    push_text(&mut m, p.name.as_str());
    push_text(&mut m, ": register ");
    push_text(&mut m, r1.name.as_str());
    push_text(&mut m, " == ");
    push_text(&mut m, r2.name.as_str());
    assert(m@ =~= rline(*p)(*r1, *r2));
    m
}

/// The message for field `f2` of register `r` of peripheral `p`, a copy of
/// `f1`.
fn field_line(p: &Peripheral, r: &Register, f1: &Field, f2: &Field) -> (m: String)
    ensures
        m@ == fline(*p, *r)(*f1, *f2),
{
    proof {
        reveal_strlit("In register ");
        reveal_strlit(".");
        reveal_strlit(": field ");
        reveal_strlit(" == ");
    }
    let mut m = copy_str("In register ");
    push_text(&mut m, p.name.as_str());
    push_text(&mut m, ".");
    push_text(&mut m, r.name.as_str());
    push_text(&mut m, ": field ");
    push_text(&mut m, f1.name.as_str());
    push_text(&mut m, " == ");
    push_text(&mut m, f2.name.as_str());
    assert(m@ =~= fline(*p, *r)(*f1, *f2));
    m
}

/// The messages about the registers of peripheral `p` (see
/// [`periph_findings`]).
#[verifier::rlimit(40)]
fn periph_findings_of(p: &Peripheral, c: &CompareConfig, out: &mut Vec<String>)
    ensures
        texts(final(out)@) == texts(old(out)@) + periph_findings(*p, *c),
{
    let ghost start = texts(out@);
    let mut regs: Vec<&Register> = Vec::new();
    match &p.registers {
        Some(v) => collect_all(v, &mut regs),
        None => {},
    }
    let ghost rs = derefs(regs@);
    assert(rs =~= all_regs(*p));
    let n = regs.len();
    let mut rcopies: Vec<usize> = Vec::new();
    let mut i: usize = 0;
    assert(tracks(rs, rrel(*c), rcopies@, 0)) by {
        reveal(tracks);
    }
    while i < n
        invariant
            n == regs@.len(),
            rs == derefs(regs@),
            i <= n,
            texts(out@) == start + copy_msgs(rs, rrel(*c), rline(*p), i as int),
            tracks(rs, rrel(*c), rcopies@, i as int),
            forall|q: int| 0 <= q < rcopies@.len() ==> rcopies@[q] < n,
        decreases n - i,
    {
        let ghost before = out@;
        let ghost bc = rcopies@;
        match first_reg_copy(&regs, i, c) {
            Some(j) => {
                let m = reg_line(p, regs[i], regs[j]);
                out.push(m);
                rcopies.push(j);
                assert(texts(out@) =~= texts(before).push(m@));
                proof {
                    lemma_tracks_push(rs, rrel(*c), bc, i as int, j);
                }
            },
            None => {
                proof {
                    lemma_tracks_none(rs, rrel(*c), bc, i as int);
                }
            },
        }
        i = i + 1;
    }
    if c.with_fields {
        let ghost mid = texts(out@);
        let mut k: usize = 0;
        while k < n
            invariant
                n == regs@.len(),
                rs == derefs(regs@),
                rs == all_regs(*p),
                k <= n,
                c.with_fields,
                tracks(rs, rrel(*c), rcopies@, n as int),
                forall|q: int| 0 <= q < rcopies@.len() ==> rcopies@[q] < n,
                texts(out@) == mid + field_findings(*p, rs, *c, k as int),
            decreases n - k,
        {
            let mut skip = false;
            let mut q: usize = 0;
            while q < rcopies.len()
                invariant
                    n == regs@.len(),
                    rs == derefs(regs@),
                    k < n,
                    q <= rcopies@.len(),
                    forall|q2: int| 0 <= q2 < rcopies@.len() ==> rcopies@[q2] < n,
                    skip <==> exists|q2: int| 0 <= q2 < q && reg_same(rs[rcopies@[q2] as int], rs[k as int]),
                decreases rcopies.len() - q,
            {
                if same_reg(regs[rcopies[q]], regs[k]) {
                    skip = true;
                }
                q = q + 1;
            }
            proof {
                reveal(tracks);
                let cp = copied(rs, rrel(*c), |a: Register, b: Register| reg_same(a, b), rs[k as int]);
                if skip {
                    let q2 = choose|q2: int| 0 <= q2 < rcopies@.len() && reg_same(rs[rcopies@[q2] as int], rs[k as int]);
                    let i2 = choose|i2: int| 0 <= i2 < n && #[trigger] first_match(rs, i2, i2 + 1, rrel(*c)) == Some(rcopies@[q2] as int);
                    assert(cp);
                } else if cp {
                    let i2 = choose|i2: int|
                        0 <= i2 < rs.len() && (#[trigger] first_match(rs, i2, i2 + 1, rrel(*c)) is Some) && reg_same(
                            rs[first_match(rs, i2, i2 + 1, rrel(*c))->0],
                            rs[k as int],
                        );
                    let q2 = choose|q2: int| 0 <= q2 < rcopies@.len() && rcopies@[q2] as int == first_match(rs, i2, i2 + 1, rrel(*c))->0;
                    assert(false);
                }
            }
            if !skip {
                let r = regs[k];
                match &r.fields {
                    Some(fs) => {
                        let ghost before_f = texts(out@);
                        let mut fi: usize = 0;
                        while fi < fs.len()
                            invariant
                                fi <= fs@.len(),
                                fields_of(*r) == fs@,
                                texts(out@) == before_f + copy_msgs(fs@, frel(*c), fline(*p, *r), fi as int),
                            decreases fs.len() - fi,
                        {
                            let ghost before = out@;
                            match first_field_copy(fs, fi, c) {
                                Some(j) => {
                                    let m = field_line(p, r, &fs[fi], &fs[j]);
                                    out.push(m);
                                    assert(texts(out@) =~= texts(before).push(m@));
                                },
                                None => {},
                            }
                            fi = fi + 1;
                        }
                        assert(texts(out@) =~= mid + field_findings(*p, rs, *c, k + 1));
                    },
                    None => {
                        assert(copy_msgs(fields_of(*r), frel(*c), fline(*p, *r), 0) =~= Seq::<Seq<char>>::empty());
                        assert(texts(out@) =~= mid + field_findings(*p, rs, *c, k + 1));
                    },
                }
            } else {
                assert(texts(out@) =~= mid + field_findings(*p, rs, *c, k + 1));
            }
            k = k + 1;
        }
        assert(texts(out@) =~= start + periph_findings(*p, *c));
    } else {
        assert(texts(out@) =~= start + periph_findings(*p, *c));
    }
}

/// The peripherals, registers and fields of `device` that are copies of
/// earlier ones, one message each (see [`analysis`]).
pub fn analyze(device: &Device, config: &CompareConfig) -> (r: Vec<String>)
    ensures
        texts(r@) == analysis(device.peripherals@, *config),
{
    let ps = &device.peripherals;
    let mut out: Vec<String> = Vec::new();
    let mut pcopies: Vec<usize> = Vec::new();
    let n = ps.len();
    let mut i: usize = 0;
    assert(texts(out@) =~= copy_msgs(ps@, prel(*config), pline(), 0));
    assert(tracks(ps@, prel(*config), pcopies@, 0)) by {
        reveal(tracks);
    }
    while i < n
        invariant
            n == ps@.len(),
            i <= n,
            texts(out@) == copy_msgs(ps@, prel(*config), pline(), i as int),
            tracks(ps@, prel(*config), pcopies@, i as int),
            forall|q: int| 0 <= q < pcopies@.len() ==> pcopies@[q] < n,
        decreases n - i,
    {
        let ghost before = out@;
        let ghost bc = pcopies@;
        match first_periph_copy(ps, i, config) {
            Some(j) => {
                let m = periph_line(&ps[i], &ps[j]);
                out.push(m);
                pcopies.push(j);
                assert(texts(out@) =~= texts(before).push(m@));
                proof {
                    lemma_tracks_push(ps@, prel(*config), bc, i as int, j);
                }
            },
            None => {
                proof {
                    lemma_tracks_none(ps@, prel(*config), bc, i as int);
                }
            },
        }
        i = i + 1;
    }
    let ghost head = texts(out@);
    let mut k: usize = 0;
    assert(head + per_periph(ps@, *config, 0) =~= head);
    while k < n
        invariant
            n == ps@.len(),
            k <= n,
            tracks(ps@, prel(*config), pcopies@, n as int),
            forall|q: int| 0 <= q < pcopies@.len() ==> pcopies@[q] < n,
            texts(out@) == head + per_periph(ps@, *config, k as int),
        decreases n - k,
    {
        let mut skip = false;
        let mut q: usize = 0;
        while q < pcopies.len()
            invariant
                n == ps@.len(),
                k < n,
                q <= pcopies@.len(),
                forall|q2: int| 0 <= q2 < pcopies@.len() ==> pcopies@[q2] < n,
                skip <==> exists|q2: int| 0 <= q2 < q && periph_same(ps@[pcopies@[q2] as int], ps@[k as int]),
            decreases pcopies.len() - q,
        {
            if same_periph(&ps[pcopies[q]], &ps[k]) {
                skip = true;
            }
            q = q + 1;
        }
        proof {
            reveal(tracks);
            let cp = copied(ps@, prel(*config), |a: Peripheral, b: Peripheral| periph_same(a, b), ps@[k as int]);
            if skip {
                let q2 = choose|q2: int| 0 <= q2 < pcopies@.len() && periph_same(ps@[pcopies@[q2] as int], ps@[k as int]);
                let i2 = choose|i2: int| 0 <= i2 < n && #[trigger] first_match(ps@, i2, i2 + 1, prel(*config)) == Some(pcopies@[q2] as int);
                assert(cp);
            } else if cp {
                let i2 = choose|i2: int|
                    0 <= i2 < ps@.len() && (#[trigger] first_match(ps@, i2, i2 + 1, prel(*config)) is Some) && periph_same(
                        ps@[first_match(ps@, i2, i2 + 1, prel(*config))->0],
                        ps@[k as int],
                    );
                let q2 = choose|q2: int| 0 <= q2 < pcopies@.len() && pcopies@[q2] as int == first_match(ps@, i2, i2 + 1, prel(*config))->0;
                assert(false);
            }
        }
        if !skip {
            periph_findings_of(&ps[k], config, &mut out);
        }
        assert(texts(out@) =~= head + per_periph(ps@, *config, k + 1));
        k = k + 1;
    }
    assert(texts(out@) =~= analysis(ps@, *config));
    out
}

} // verus!
