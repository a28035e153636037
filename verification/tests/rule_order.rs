use svdtools::model::{
    BitRangeType, Cluster, Field, Peripheral, Register, RegisterCluster, RegisterProperties, WriteConstraint,
};
use svdtools::patch::builders::BlockPath;
use svdtools::patch::yaml::{Yaml, YamlHash};
use svdtools::patch::Config;

fn s(x: &str) -> Yaml {
    Yaml::String(x.to_string())
}

fn hash(pairs: Vec<(&str, Yaml)>) -> YamlHash {
    YamlHash {
        entries: pairs.into_iter().map(|(k, v)| (s(k), v)).collect(),
    }
}

fn h(pairs: Vec<(&str, Yaml)>) -> Yaml {
    Yaml::Hash(hash(pairs))
}

fn no_props() -> RegisterProperties {
    RegisterProperties { size: None, access: None, protection: None, reset_value: None, reset_mask: None }
}

fn field(name: &str, offset: u32, width: u32) -> Field {
    Field {
        name: name.to_string(),
        description: None,
        bit_offset: offset,
        bit_width: width,
        range_type: BitRangeType::OffsetWidth,
        access: None,
        modified_write_values: None,
        write_constraint: None,
        read_action: None,
        enumerated_values: Vec::new(),
        derived_from: None,
        dim: None,
    }
}

fn reg(name: &str, offset: u32, desc: &str) -> Register {
    Register {
        name: name.to_string(),
        display_name: None,
        description: Some(desc.to_string()),
        alternate_group: None,
        alternate_register: None,
        address_offset: offset,
        properties: no_props(),
        datatype: None,
        modified_write_values: None,
        write_constraint: None,
        read_action: None,
        fields: Some(vec![field("EN", 0, 1)]),
        derived_from: None,
        dim: None,
    }
}

fn periph(regs: Vec<Register>) -> Peripheral {
    Peripheral {
        name: "DMA".to_string(),
        display_name: None,
        version: None,
        description: None,
        alternate_peripheral: None,
        group_name: None,
        prepend_to_name: None,
        append_to_name: None,
        header_struct_name: None,
        base_address: 0x4000_0000,
        default_register_properties: no_props(),
        address_block: None,
        interrupt: Vec::new(),
        registers: Some(regs.into_iter().map(RegisterCluster::Register).collect()),
        derived_from: None,
        dim: None,
    }
}

fn path() -> BlockPath {
    BlockPath { peripheral: "DMA".to_string(), path: Vec::new() }
}

fn names(cs: &[RegisterCluster]) -> Vec<String> {
    cs.iter()
        .map(|rc| match rc {
            RegisterCluster::Register(r) => r.name.clone(),
            RegisterCluster::Cluster(c) => c.name.clone(),
        })
        .collect()
}

fn cluster(children: Vec<Register>) -> Cluster {
    Cluster {
        name: "CH".to_string(),
        description: None,
        alternate_cluster: None,
        header_struct_name: None,
        address_offset: 0,
        default_register_properties: no_props(),
        children: children.into_iter().map(RegisterCluster::Register).collect(),
        derived_from: None,
        dim: None,
    }
}

#[test]
fn delete_before_add_on_a_peripheral() {
    let mut p = periph(vec![reg("R1", 0, "one")]);
    let pmod = hash(vec![
        ("_delete", Yaml::Array(vec![s("R*")])),
        ("_add", h(vec![("R2", h(vec![("addressOffset", Yaml::Integer(4))]))])),
    ]);
    assert!(p.process(&pmod, &Config::default()).is_ok());
    let regs = p.registers.unwrap();
    assert_eq!(names(&regs), vec!["R2".to_string()]);
}

#[test]
fn a_malformed_delete_fails_after_the_listed_deletions() {
    let mut c = cluster(vec![reg("R1", 0, "one"), reg("R2", 4, "two")]);
    let bad = hash(vec![("_delete", Yaml::Integer(1))]);
    assert!(c.pre_process(&bad, &path(), &Config::default()).is_err());
    assert_eq!(names(&c.children), vec!["R1".to_string(), "R2".to_string()]);
    let unknown = hash(vec![(
        "_delete",
        h(vec![("_registers", Yaml::Array(vec![s("R1")])), ("_fields", Yaml::Array(vec![s("X")]))]),
    )]);
    assert!(c.pre_process(&unknown, &path(), &Config::default()).is_err());
    assert_eq!(names(&c.children), vec!["R2".to_string()]);
}

#[test]
fn register_deletions_come_first() {
    let mut r = reg("R1", 0, "one");
    r.fields = Some(vec![field("A", 0, 1), field("B", 1, 1)]);
    let rmod = hash(vec![("_delete", Yaml::Array(vec![s("A"), s("[")]))]);
    assert!(r.process(&rmod, &path(), &Config::default()).is_err());
    let left: Vec<String> = r.fields.unwrap().iter().map(|f| f.name.clone()).collect();
    assert_eq!(left, vec!["B".to_string()]);
}

#[test]
fn a_list_rule_sets_the_write_constraint() {
    let mut r = reg("R1", 0, "one");
    r.fields = Some(vec![field("MPS", 0, 5)]);
    let rule = Yaml::Array(vec![Yaml::Integer(0), Yaml::Integer(31)]);
    assert!(r.process_field("MPS", &rule, &Config::default()).is_ok());
    let f = &r.fields.unwrap()[0];
    assert!(matches!(f.write_constraint, Some(WriteConstraint::Range(0, 31))));
}

#[test]
fn evenly_spaced_registers_become_an_array() {
    let mut regs: Vec<RegisterCluster> =
        vec![RegisterCluster::Register(reg("CH1", 0x10, "one")), RegisterCluster::Register(reg("CH2", 0x14, "one"))];
    let r = svdtools::patch::collect_regs::collect_in_array(&mut regs, &path(), "CH?", &hash(vec![]), &Config::default());
    assert!(r.is_ok());
    assert_eq!(regs.len(), 1);
    match &regs[0] {
        RegisterCluster::Register(a) => {
            assert_eq!(a.name, "CH%s");
            assert_eq!(a.address_offset, 0x10);
            let d = a.dim.as_ref().unwrap();
            assert_eq!(d.dim, 2);
            assert_eq!(d.dim_increment, 4);
            assert_eq!(d.dim_index, Some(vec!["1".to_string(), "2".to_string()]));
        },
        RegisterCluster::Cluster(_) => panic!("expected a register array"),
    }
}

#[test]
fn a_single_register_array_needs_an_increment() {
    let mut one = reg("CH1", 0x10, "one");
    one.properties.size = Some(32);
    let mut regs = vec![RegisterCluster::Register(one)];
    let r = svdtools::patch::collect_regs::collect_in_array(&mut regs, &path(), "CH?", &hash(vec![]), &Config::default());
    assert!(r.is_ok());
    match &regs[0] {
        RegisterCluster::Register(a) => assert_eq!(a.dim.as_ref().unwrap().dim_increment, 4),
        RegisterCluster::Cluster(_) => panic!("expected a register array"),
    }
    let mut regs = vec![RegisterCluster::Register(reg("CH1", 0x10, "one"))];
    let r = svdtools::patch::collect_regs::collect_in_array(&mut regs, &path(), "CH?", &hash(vec![]), &Config::default());
    assert!(r.is_err());
}
