use svdtools::model::{
    Access, BitRangeType, Cluster, Field, Peripheral, Register, RegisterCluster, RegisterProperties,
};
use svdtools::patch::builders::BlockPath;
use svdtools::patch::collect_regs::collect_in_array;
use svdtools::patch::error::PatchError;
use svdtools::patch::process::collect_in_cluster;
use svdtools::patch::yaml::{Yaml, YamlHash};
use svdtools::patch::Config;

fn s(x: &str) -> Yaml {
    Yaml::String(x.to_string())
}

fn hash(pairs: Vec<(&str, Yaml)>) -> YamlHash {
    YamlHash {
        entries: pairs.into_iter().map(|(k, v)| (s(k), v)).collect(),
    }
}

fn h(pairs: Vec<(&str, Yaml)>) -> Yaml {
    Yaml::Hash(hash(pairs))
}

fn no_props() -> RegisterProperties {
    RegisterProperties { size: None, access: None, protection: None, reset_value: None, reset_mask: None }
}

fn field(name: &str, offset: u32, width: u32) -> Field {
    Field {
        name: name.to_string(),
        description: None,
        bit_offset: offset,
        bit_width: width,
        range_type: BitRangeType::OffsetWidth,
        access: None,
        modified_write_values: None,
        write_constraint: None,
        read_action: None,
        enumerated_values: Vec::new(),
        derived_from: None,
        dim: None,
    }
}

fn reg(name: &str, offset: u32, desc: &str) -> Register {
    Register {
        name: name.to_string(),
        display_name: None,
        description: Some(desc.to_string()),
        alternate_group: None,
        alternate_register: None,
        address_offset: offset,
        properties: no_props(),
        datatype: None,
        modified_write_values: None,
        write_constraint: None,
        read_action: None,
        fields: Some(vec![field("EN", 0, 1)]),
        derived_from: None,
        dim: None,
    }
}

fn periph(regs: Vec<Register>) -> Peripheral {
    Peripheral {
        name: "DMA".to_string(),
        display_name: None,
        version: None,
        description: None,
        alternate_peripheral: None,
        group_name: None,
        prepend_to_name: None,
        append_to_name: None,
        header_struct_name: None,
        base_address: 0x4000_0000,
        default_register_properties: no_props(),
        address_block: None,
        interrupt: Vec::new(),
        registers: Some(regs.into_iter().map(RegisterCluster::Register).collect()),
        derived_from: None,
        dim: None,
    }
}

fn path() -> BlockPath {
    BlockPath { peripheral: "DMA".to_string(), path: Vec::new() }
}

fn names(cs: &[RegisterCluster]) -> Vec<String> {
    cs.iter()
        .map(|rc| match rc {
            RegisterCluster::Register(r) => r.name.clone(),
            RegisterCluster::Cluster(c) => c.name.clone(),
        })
        .collect()
}

fn as_cluster(rc: &RegisterCluster) -> &Cluster {
    match rc {
        RegisterCluster::Cluster(c) => c,
        RegisterCluster::Register(r) => panic!("expected a cluster, found register {}", r.name),
    }
}

fn as_register(rc: &RegisterCluster) -> &Register {
    match rc {
        RegisterCluster::Register(r) => r,
        RegisterCluster::Cluster(c) => panic!("expected a register, found cluster {}", c.name),
    }
}

/// Registers of two channels collected into a cluster array by a `_cluster`
/// rule of the peripheral.
#[test]
fn cluster() {
    let mut p = periph(vec![
        reg("CTRL", 0x00, "Control"),
        reg("CH1_CR", 0x10, "Channel 1 configuration"),
        reg("CH1_SR", 0x14, "Channel 1 status"),
        reg("CH2_CR", 0x20, "Channel 2 configuration"),
        reg("CH2_SR", 0x24, "Channel 2 status"),
    ]);
    let pmod = hash(vec![(
        "_cluster",
        h(vec![(
            "CH%s",
            h(vec![
                ("CH*_CR", h(vec![("name", s("CR")), ("description", s("Configuration"))])),
                ("CH*_SR", h(vec![("name", s("SR"))])),
            ]),
        )]),
    )]);
    p.process(&pmod, &Config::default()).unwrap();
    let regs = p.registers.as_ref().unwrap();
    assert_eq!(names(regs), vec!["CTRL", "CH%s"]);
    let c = as_cluster(&regs[1]);
    assert_eq!(c.address_offset, 0x10);
    assert_eq!(c.description.as_deref(), Some("Cluster CH%s, containing CH*_CR, CH*_SR"));
    let d = c.dim.as_ref().unwrap();
    assert_eq!(d.dim, 2);
    assert_eq!(d.dim_increment, 0x10);
    assert_eq!(d.dim_index.clone().unwrap(), vec!["1".to_string(), "2".to_string()]);
    assert_eq!(names(&c.children), vec!["CR", "SR"]);
    let cr = as_register(&c.children[0]);
    assert_eq!(cr.address_offset, 0);
    assert_eq!(cr.description.as_deref(), Some("Configuration"));
    let sr = as_register(&c.children[1]);
    assert_eq!(sr.address_offset, 4);
    assert_eq!(sr.description.as_deref(), Some("Channel 1 status"));
}

#[test]
fn single_cluster_keeps_names() {
    let mut regs: Vec<RegisterCluster> = vec![
        RegisterCluster::Register(reg("A", 0x08, "a")),
        RegisterCluster::Register(reg("B", 0x0c, "b")),
    ];
    let cmod = hash(vec![
        ("description", s("Pair")),
        ("A", h(vec![])),
        ("B", h(vec![("name", s("BB"))])),
    ]);
    collect_in_cluster(&mut regs, &path(), "PAIR", &cmod, &Config::default()).unwrap();
    assert_eq!(names(&regs), vec!["PAIR"]);
    let c = as_cluster(&regs[0]);
    assert!(c.dim.is_none());
    assert_eq!(c.address_offset, 0x08);
    assert_eq!(c.description.as_deref(), Some("Pair"));
    assert_eq!(names(&c.children), vec!["A", "BB"]);
    assert_eq!(as_register(&c.children[1]).address_offset, 4);
}

#[test]
fn cluster_without_matches_is_refused() {
    let mut regs: Vec<RegisterCluster> = vec![RegisterCluster::Register(reg("A", 0, "a"))];
    let cmod = hash(vec![("X*", h(vec![]))]);
    let r = collect_in_cluster(&mut regs, &path(), "C", &cmod, &Config::default());
    assert!(matches!(r, Err(PatchError::NotFound(_))));
}

#[test]
fn registers_collected_into_array() {
    let mut regs: Vec<RegisterCluster> = vec![
        RegisterCluster::Register(reg("OTHER", 0x00, "x")),
        RegisterCluster::Register(reg("BUF1", 0x14, "Buffer 1")),
        RegisterCluster::Register(reg("BUF0", 0x10, "Buffer 0")),
    ];
    let rmod = hash(vec![]);
    collect_in_array(&mut regs, &path(), "BUF*", &rmod, &Config::default()).unwrap();
    assert_eq!(names(&regs), vec!["OTHER", "BUF%s"]);
    let r = as_register(&regs[1]);
    assert_eq!(r.address_offset, 0x10);
    assert_eq!(r.description.as_deref(), Some("Buffer %s"));
    let d = r.dim.as_ref().unwrap();
    assert_eq!((d.dim, d.dim_increment), (2, 4));
    assert_eq!(d.dim_index.clone().unwrap(), vec!["0".to_string(), "1".to_string()]);
}

#[test]
fn array_with_uneven_offsets_is_refused() {
    let mut regs: Vec<RegisterCluster> = vec![
        RegisterCluster::Register(reg("BUF0", 0x10, "b")),
        RegisterCluster::Register(reg("BUF1", 0x14, "b")),
        RegisterCluster::Register(reg("BUF2", 0x1c, "b")),
    ];
    let r = collect_in_array(&mut regs, &path(), "BUF*", &hash(vec![]), &Config::default());
    assert!(matches!(r, Err(PatchError::Invalid(_))));
}

#[test]
fn array_with_ignored_missing_registers_is_fine() {
    let mut regs: Vec<RegisterCluster> = vec![RegisterCluster::Register(reg("A", 0, "a"))];
    collect_in_array(&mut regs, &path(), "?~BUF*", &hash(vec![]), &Config::default()).unwrap();
    assert_eq!(names(&regs), vec!["A"]);
    let r = collect_in_array(&mut regs, &path(), "BUF*", &hash(vec![]), &Config::default());
    assert!(matches!(r, Err(PatchError::NotFound(_))));
}

#[test]
fn delete_and_rename_registers() {
    let mut p = periph(vec![reg("DMA_A", 0, "a"), reg("DMA_B", 4, "b"), reg("C", 8, "c")]);
    p.delete_register("*_B").unwrap();
    assert_eq!(names(p.registers.as_ref().unwrap()), vec!["DMA_A", "C"]);
    p.strip_start("DMA_").unwrap();
    assert_eq!(names(p.registers.as_ref().unwrap()), vec!["A", "C"]);
    p.add_suffix("_R").unwrap();
    assert_eq!(names(p.registers.as_ref().unwrap()), vec!["A_R", "C_R"]);
    p.add_prefix("X").unwrap();
    p.strip_end("_R").unwrap();
    assert_eq!(names(p.registers.as_ref().unwrap()), vec!["XA", "XC"]);
}

#[test]
fn deleting_from_a_peripheral_without_registers_fails() {
    let mut p = periph(vec![]);
    p.registers = None;
    assert!(matches!(p.delete_child("*"), Err(PatchError::NotFound(_))));
}

#[test]
fn missing_clusters_are_reported_unless_optional() {
    let mut p = periph(vec![reg("A", 0, "a")]);
    assert!(matches!(p.delete_cluster("X"), Err(PatchError::NotFound(_))));
    p.delete_cluster("?~X").unwrap();
}

#[test]
fn fields_cleared_in_selected_registers() {
    let mut p = periph(vec![reg("A", 0, "a"), reg("B", 4, "b")]);
    if let Some(RegisterCluster::Register(r)) = p.registers.as_mut().unwrap().get_mut(0) {
        r.fields.as_mut().unwrap()[0].write_constraint =
            Some(svdtools::model::WriteConstraint::WriteAsRead(true));
    }
    p.clear_fields("A").unwrap();
    let a = as_register(&p.registers.as_ref().unwrap()[0]);
    assert!(a.fields.as_ref().unwrap()[0].write_constraint.is_none());
}

#[test]
fn registers_added_and_modified_through_rules() {
    let mut p = periph(vec![reg("A", 0, "a"), reg("C", 8, "c")]);
    let pmod = hash(vec![
        (
            "_add",
            h(vec![(
                "B",
                h(vec![("addressOffset", Yaml::Integer(4)), ("description", s("in `peripheral`"))]),
            )]),
        ),
        ("_modify", h(vec![("C", h(vec![("access", s("read-only")), ("size", Yaml::Integer(16))]))])),
    ]);
    p.process(&pmod, &Config::default()).unwrap();
    let regs = p.registers.as_ref().unwrap();
    assert_eq!(names(regs), vec!["A", "B", "C"]);
    assert_eq!(as_register(&regs[1]).description.as_deref(), Some("in DMA"));
    let c = as_register(&regs[2]);
    assert_eq!(c.properties.access, Some(Access::ReadOnly));
    assert_eq!(c.properties.size, Some(16));
}

#[test]
fn adding_an_existing_register_fails() {
    let mut p = periph(vec![reg("A", 0, "a")]);
    let pmod = hash(vec![("_add", h(vec![("A", h(vec![("addressOffset", Yaml::Integer(4))]))]))]);
    assert!(matches!(p.process(&pmod, &Config::default()), Err(PatchError::AlreadyExists(_))));
}

#[test]
fn derived_peripherals_only_take_interrupt_rules() {
    let mut p = periph(vec![reg("A", 0, "a")]);
    p.derived_from = Some("DMA1".to_string());
    let pmod = hash(vec![
        ("_delete", s("A")),
        ("_add", h(vec![("_interrupts", h(vec![("DMA_IRQ", h(vec![("value", Yaml::Integer(7))]))]))])),
    ]);
    p.process(&pmod, &Config::default()).unwrap();
    assert_eq!(names(p.registers.as_ref().unwrap()), vec!["A"]);
    assert_eq!(p.interrupt.len(), 1);
    assert_eq!(p.interrupt[0].name, "DMA_IRQ");
    assert_eq!(p.interrupt[0].value, 7);
}

fn block(name: &str, offset: u32, regs: Vec<Register>) -> RegisterCluster {
    RegisterCluster::Cluster(Cluster {
        name: name.to_string(),
        description: None,
        alternate_cluster: None,
        header_struct_name: None,
        address_offset: offset,
        default_register_properties: no_props(),
        children: regs.into_iter().map(RegisterCluster::Register).collect(),
        derived_from: None,
        dim: None,
    })
}

/// A register of one cluster derived from the register of the same name in
/// a sibling cluster: the name written as `cluster.register` is completed
/// with the path of the peripheral.
#[test]
fn cross_cluster_derive() {
    let mut p = periph(vec![]);
    p.registers = Some(vec![
        block("CL1", 0x00, vec![reg("REG", 0x0, "Register of the first cluster")]),
        block("CL2", 0x10, vec![reg("REG", 0x0, "Register of the second cluster")]),
    ]);
    let pmod = hash(vec![("_clusters", h(vec![("CL2", h(vec![("_derive", h(vec![("REG", s("CL1.REG"))]))]))]))]);
    p.process(&pmod, &Config::default()).unwrap();
    let regs = p.registers.as_ref().unwrap();
    let cl1 = as_cluster(&regs[0]);
    let cl2 = as_cluster(&regs[1]);
    assert!(as_register(&cl1.children[0]).derived_from.is_none());
    let r = as_register(&cl2.children[0]);
    assert_eq!(r.derived_from.as_deref(), Some("DMA.CL1.REG"));
    assert!(r.fields.is_none());
    assert_eq!(r.description.as_deref(), Some("Register of the second cluster"));
}
