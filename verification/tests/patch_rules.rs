use svdtools::interrupts::svd_reader::Interrupt;
use svdtools::model::{
    BitRangeType, Cluster, DimElement, Device, Field, Peripheral, Register, RegisterCluster, RegisterProperties,
};
use svdtools::patch::builders::BlockPath;
use svdtools::patch::copy_derive::{copy_register_in, derive_path_of, derive_register_in};
use svdtools::patch::device::PeripheralSource;
use svdtools::patch::error::PatchError;
use svdtools::patch::expand::{expand_array_in, expand_cluster_in, ExpandOpts};
use svdtools::patch::yaml::{Yaml, YamlHash};
use svdtools::patch::Config;

fn s(x: &str) -> Yaml {
    Yaml::String(x.to_string())
}

fn hash(pairs: Vec<(&str, Yaml)>) -> YamlHash {
    YamlHash { entries: pairs.into_iter().map(|(k, v)| (s(k), v)).collect() }
}

fn h(pairs: Vec<(&str, Yaml)>) -> Yaml {
    Yaml::Hash(hash(pairs))
}

fn no_props() -> RegisterProperties {
    RegisterProperties { size: None, access: None, protection: None, reset_value: None, reset_mask: None }
}

fn field(name: &str, offset: u32, width: u32) -> Field {
    Field {
        name: name.to_string(),
        description: None,
        bit_offset: offset,
        bit_width: width,
        range_type: BitRangeType::OffsetWidth,
        access: None,
        modified_write_values: None,
        write_constraint: None,
        read_action: None,
        enumerated_values: Vec::new(),
        derived_from: None,
        dim: None,
    }
}

fn reg(name: &str, offset: u32, desc: &str) -> Register {
    Register {
        name: name.to_string(),
        display_name: Some(format!("{name} register")),
        description: Some(desc.to_string()),
        alternate_group: None,
        alternate_register: None,
        address_offset: offset,
        properties: no_props(),
        datatype: None,
        modified_write_values: None,
        write_constraint: None,
        read_action: None,
        fields: Some(vec![field("EN", 0, 1), field("MODE", 1, 2)]),
        derived_from: None,
        dim: None,
    }
}

fn cluster(name: &str, offset: u32, children: Vec<RegisterCluster>, dim: Option<DimElement>) -> Cluster {
    Cluster {
        name: name.to_string(),
        description: None,
        alternate_cluster: None,
        header_struct_name: None,
        address_offset: offset,
        default_register_properties: no_props(),
        children,
        derived_from: None,
        dim,
    }
}

fn dim(n: u32, inc: u32, index: Option<Vec<&str>>) -> DimElement {
    DimElement {
        dim: n,
        dim_increment: inc,
        dim_index: index.map(|v| v.into_iter().map(|x| x.to_string()).collect()),
        dim_name: None,
    }
}

fn periph(name: &str, regs: Vec<Register>) -> Peripheral {
    Peripheral {
        name: name.to_string(),
        display_name: None,
        version: None,
        description: None,
        alternate_peripheral: None,
        group_name: None,
        prepend_to_name: None,
        append_to_name: None,
        header_struct_name: None,
        base_address: 0x4000_0000,
        default_register_properties: no_props(),
        address_block: None,
        interrupt: Vec::new(),
        registers: Some(regs.into_iter().map(RegisterCluster::Register).collect()),
        derived_from: None,
        dim: None,
    }
}

fn device(ps: Vec<Peripheral>) -> Device {
    Device {
        vendor: None,
        vendor_id: None,
        name: "DEV".to_string(),
        series: None,
        version: "1.0".to_string(),
        description: "A device".to_string(),
        license_text: None,
        cpu: None,
        header_system_filename: None,
        header_definitions_prefix: None,
        address_unit_bits: 8,
        width: 32,
        default_register_properties: no_props(),
        peripherals: ps,
    }
}

fn path(clusters: &[&str]) -> BlockPath {
    BlockPath { peripheral: "DMA".to_string(), path: clusters.iter().map(|c| c.to_string()).collect() }
}

fn names(cs: &[RegisterCluster]) -> Vec<String> {
    cs.iter()
        .map(|rc| match rc {
            RegisterCluster::Register(r) => r.name.clone(),
            RegisterCluster::Cluster(c) => c.name.clone(),
        })
        .collect()
}

fn as_register(rc: &RegisterCluster) -> &Register {
    match rc {
        RegisterCluster::Register(r) => r,
        RegisterCluster::Cluster(c) => panic!("expected a register, found cluster {}", c.name),
    }
}

fn members() -> Vec<RegisterCluster> {
    vec![
        RegisterCluster::Register(reg("CTRL", 0x00, "Control")),
        RegisterCluster::Register(reg("CH1_CR", 0x10, "Channel 1 configuration")),
        RegisterCluster::Register(reg("CH2_CR", 0x20, "Channel 2 configuration")),
    ]
}

#[test]
fn copy_register_adds_a_copy_at_the_end() {
    let mut cs = members();
    copy_register_in(&mut cs, "NEW", &hash(vec![("_from", s("CTRL")), ("addressOffset", Yaml::Integer(0x40))]), &path(&[]))
        .unwrap();
    assert_eq!(names(&cs), vec!["CTRL", "CH1_CR", "CH2_CR", "NEW"]);
    let new = as_register(&cs[3]);
    assert_eq!(new.address_offset, 0x40);
    assert_eq!(new.description.as_deref(), Some("Control"));
    assert_eq!(new.display_name, None);
    assert_eq!(new.fields.as_ref().unwrap().len(), 2);
    // The source is left as it was.
    assert_eq!(as_register(&cs[0]).display_name.as_deref(), Some("CTRL register"));
}

#[test]
fn copy_register_replaces_a_register_of_that_name() {
    let mut cs = members();
    copy_register_in(&mut cs, "CH2_CR", &hash(vec![("_from", s("CH1_CR"))]), &path(&[])).unwrap();
    assert_eq!(names(&cs), vec!["CTRL", "CH1_CR", "CH2_CR"]);
    let r = as_register(&cs[2]);
    assert_eq!(r.address_offset, 0x20);
    assert_eq!(r.description.as_deref(), Some("Channel 1 configuration"));
}

#[test]
fn copy_register_errors() {
    let mut cs = members();
    assert!(matches!(copy_register_in(&mut cs, "NEW", &hash(vec![]), &path(&[])), Err(PatchError::Invalid(_))));
    assert!(matches!(
        copy_register_in(&mut cs, "NEW", &hash(vec![("_from", s("NONE"))]), &path(&[])),
        Err(PatchError::NotFound(_))
    ));
    assert!(matches!(
        copy_register_in(&mut cs, "NEW", &hash(vec![("_from", Yaml::Integer(3))]), &path(&[])),
        Err(PatchError::Yaml(_))
    ));
    assert_eq!(names(&cs), vec!["CTRL", "CH1_CR", "CH2_CR"]);
}

#[test]
fn derive_register_from_a_name() {
    let mut cs = members();
    derive_register_in(&mut cs, "CH2_CR", &s("CH1_CR"), &path(&[])).unwrap();
    let r = as_register(&cs[2]);
    assert_eq!(r.derived_from.as_deref(), Some("CH1_CR"));
    assert!(r.fields.is_none());
    assert_eq!(r.address_offset, 0x20);
    assert_eq!(r.description.as_deref(), Some("Channel 2 configuration"));
}

#[test]
fn derive_register_redirects_derived_registers() {
    let mut cs = members();
    let mut ch3 = reg("CH3_CR", 0x30, "Channel 3 configuration");
    ch3.derived_from = Some("CH2_CR".to_string());
    ch3.fields = None;
    cs.push(RegisterCluster::Register(ch3));
    derive_register_in(&mut cs, "CH2_CR", &s("CH1_CR"), &path(&[])).unwrap();
    assert_eq!(as_register(&cs[3]).derived_from.as_deref(), Some("CH1_CR"));
}

#[test]
fn derive_register_adds_a_missing_register() {
    let mut cs = members();
    let rule = h(vec![("_from", s("CTRL")), ("addressOffset", Yaml::Integer(0x50)), ("description", s("Copy"))]);
    derive_register_in(&mut cs, "EXTRA", &rule, &path(&[])).unwrap();
    assert_eq!(names(&cs), vec!["CTRL", "CH1_CR", "CH2_CR", "EXTRA"]);
    let r = as_register(&cs[3]);
    assert_eq!(r.derived_from.as_deref(), Some("CTRL"));
    assert_eq!(r.address_offset, 0x50);
    // Without an offset nothing can be added; with `?~` nothing is asked.
    assert!(matches!(derive_register_in(&mut cs, "OTHER", &s("CTRL"), &path(&[])), Err(PatchError::Invalid(_))));
    derive_register_in(&mut cs, "?~OTHER", &s("CTRL"), &path(&[])).unwrap();
    assert_eq!(cs.len(), 4);
}

#[test]
fn derive_register_errors() {
    let mut cs = members();
    assert!(matches!(derive_register_in(&mut cs, "CH2_CR", &s("NONE"), &path(&[])), Err(PatchError::NotFound(_))));
    assert!(matches!(derive_register_in(&mut cs, "CH2_CR", &Yaml::Integer(1), &path(&[])), Err(PatchError::Invalid(_))));
    assert!(matches!(
        derive_register_in(&mut cs, "CH2_CR", &h(vec![("description", s("x"))]), &path(&[])),
        Err(PatchError::Invalid(_))
    ));
}

#[test]
fn derive_path_names_a_sibling_cluster() {
    let (p, dotted) = derive_path_of("CL2.REG", &path(&["CL1"]));
    assert_eq!(p, "DMA.CL2.REG");
    assert!(dotted);
    assert_eq!(derive_path_of("CL2.REG", &path(&[])).0, "CL2.REG");
    assert_eq!(derive_path_of("A.B.C", &path(&["CL1"])).0, "A.B.C");
    assert_eq!(derive_path_of("REG", &path(&["CL1"])), ("REG".to_string(), false));
}

#[test]
fn expand_array_splits_the_elements() {
    let mut arr = reg("CH%s", 0x10, "Channel %s");
    arr.dim = Some(dim(2, 4, None));
    let mut cs = vec![RegisterCluster::Register(reg("CTRL", 0, "Control")), RegisterCluster::Register(arr)];
    expand_array_in(&mut cs, "CH*").unwrap();
    assert_eq!(names(&cs), vec!["CTRL", "CH0", "CH1"]);
    assert_eq!(as_register(&cs[1]).address_offset, 0x10);
    assert_eq!(as_register(&cs[2]).address_offset, 0x14);
    assert_eq!(as_register(&cs[2]).description.as_deref(), Some("Channel 1"));
    assert!(as_register(&cs[2]).dim.is_none());
}

#[test]
fn expand_array_with_index_names() {
    let mut arr = reg("CH[%s]", 0x10, "Channel");
    arr.dim = Some(dim(2, 8, Some(vec!["A", "B"])));
    let mut cs = vec![RegisterCluster::Register(arr)];
    expand_array_in(&mut cs, "CH*").unwrap();
    assert_eq!(names(&cs), vec!["CHA", "CHB"]);
    assert_eq!(as_register(&cs[1]).address_offset, 0x18);
    assert!(matches!(expand_array_in(&mut cs, "CH*"), Err(PatchError::NotFound(_))));
}

fn channel_cluster() -> RegisterCluster {
    RegisterCluster::Cluster(cluster(
        "CH[%s]",
        0x100,
        vec![
            RegisterCluster::Register(reg("CR", 0x0, "Configuration")),
            RegisterCluster::Register(reg("SR", 0x4, "Status")),
        ],
        Some(dim(2, 0x10, None)),
    ))
}

#[test]
fn expand_cluster_moves_the_members_out() {
    let mut cs = vec![RegisterCluster::Register(reg("CTRL", 0, "Control")), channel_cluster()];
    let opts = ExpandOpts { pre: None, post: None, zeroindex: None, noprefix: None };
    expand_cluster_in(&mut cs, "CH*", &opts).unwrap();
    assert_eq!(names(&cs), vec!["CTRL", "CH_0_CR", "CH_0_SR", "CH_1_CR", "CH_1_SR"]);
    let offsets: Vec<u32> = cs.iter().map(|rc| as_register(rc).address_offset).collect();
    assert_eq!(offsets, vec![0, 0x100, 0x104, 0x110, 0x114]);
}

#[test]
fn expand_cluster_with_delimiters() {
    let mut cs = vec![channel_cluster()];
    let opts = ExpandOpts { pre: Some("".to_string()), post: Some("".to_string()), zeroindex: None, noprefix: None };
    expand_cluster_in(&mut cs, "CH*", &opts).unwrap();
    assert_eq!(names(&cs), vec!["CH0CR", "CH0SR", "CH1CR", "CH1SR"]);
}

#[test]
fn expand_cluster_errors() {
    let mut cs = vec![channel_cluster()];
    let opts = ExpandOpts { pre: None, post: None, zeroindex: None, noprefix: Some(true) };
    assert!(matches!(expand_cluster_in(&mut cs, "CH*", &opts), Err(PatchError::Invalid(_))));
    let plain = ExpandOpts { pre: None, post: None, zeroindex: None, noprefix: None };
    assert!(matches!(expand_cluster_in(&mut cs, "NONE", &plain), Err(PatchError::NotFound(_))));
    expand_cluster_in(&mut cs, "?~NONE", &plain).unwrap();
    assert_eq!(names(&cs), vec!["CH[%s]"]);
}

#[test]
fn expand_single_cluster_without_prefix() {
    let mut cs = vec![RegisterCluster::Cluster(cluster(
        "BLOCK",
        0x200,
        vec![RegisterCluster::Register(reg("CR", 0x0, "Configuration"))],
        Some(dim(1, 0x10, None)),
    ))];
    let opts = ExpandOpts { pre: None, post: None, zeroindex: None, noprefix: Some(true) };
    expand_cluster_in(&mut cs, "BLOCK", &opts).unwrap();
    assert_eq!(names(&cs), vec!["CR"]);
    assert_eq!(as_register(&cs[0]).address_offset, 0x200);
}

#[test]
fn peripheral_rules_copy_derive_and_expand() {
    let mut p = periph("DMA", vec![reg("CTRL", 0, "Control"), reg("CH1_CR", 0x10, "Channel 1")]);
    let pmod = hash(vec![
        ("_copy", h(vec![("CH2_CR", h(vec![("_from", s("CH1_CR")), ("addressOffset", Yaml::Integer(0x20))]))])),
        ("_derive", h(vec![("CH3_CR", h(vec![("_from", s("CH1_CR")), ("addressOffset", Yaml::Integer(0x30))]))])),
    ]);
    p.process(&pmod, &Config::default()).unwrap();
    let regs = p.registers.as_ref().unwrap();
    assert_eq!(names(regs), vec!["CTRL", "CH1_CR", "CH2_CR", "CH3_CR"]);
    assert_eq!(as_register(&regs[3]).derived_from.as_deref(), Some("CH1_CR"));
}

#[test]
fn copying_clusters_is_refused() {
    let mut p = periph("DMA", vec![reg("CTRL", 0, "Control")]);
    let pmod = hash(vec![("_copy", h(vec![("_clusters", h(vec![("X", h(vec![("_from", s("Y"))]))]))]))]);
    assert!(matches!(p.process(&pmod, &Config::default()), Err(PatchError::Invalid(_))));
}

#[test]
fn device_copies_a_peripheral() {
    let mut a = periph("TIM1", vec![reg("CR", 0, "Control")]);
    a.interrupt.push(Interrupt { name: "TIM1".to_string(), description: None, value: 3 });
    let mut b = periph("TIM2", vec![]);
    b.base_address = 0x4000_1000;
    b.interrupt.push(Interrupt { name: "TIM2".to_string(), description: None, value: 4 });
    let mut dev = device(vec![a, b]);
    let root = hash(vec![
        ("_path", s("patch.yaml")),
        ("_copy", h(vec![("TIM2", h(vec![("from", s("TIM1"))])), ("TIM3", h(vec![("from", s("TIM1"))]))])),
    ]);
    dev.process(&root, true, &Vec::new()).unwrap();
    let names: Vec<&str> = dev.peripherals.iter().map(|p| p.name.as_str()).collect();
    assert_eq!(names, vec!["TIM1", "TIM2", "TIM3"]);
    let tim2 = &dev.peripherals[1];
    assert_eq!(tim2.base_address, 0x4000_1000);
    assert_eq!(tim2.interrupt.len(), 1);
    assert_eq!(tim2.interrupt[0].name, "TIM2");
    assert_eq!(tim2.registers.as_ref().unwrap().len(), 1);
    assert!(dev.peripherals[2].interrupt.is_empty());
}

#[test]
fn device_copies_from_another_file() {
    let mut other = periph("UART", vec![reg("DR", 0, "Data")]);
    other.interrupt.push(Interrupt { name: "UART".to_string(), description: None, value: 7 });
    let srcs = vec![PeripheralSource { file: "other.svd".to_string(), peripherals: vec![other] }];
    let mut dev = device(vec![periph("TIM1", vec![])]);
    let root = hash(vec![("_path", s("patch.yaml")), ("_copy", h(vec![("UART1", h(vec![("from", s("other.svd:UART"))]))]))]);
    dev.process(&root, true, &srcs).unwrap();
    assert_eq!(dev.peripherals[1].name, "UART1");
    assert_eq!(dev.peripherals[1].interrupt.len(), 1);
    let bad = hash(vec![("_path", s("patch.yaml")), ("_copy", h(vec![("X", h(vec![("from", s("missing.svd:UART"))]))]))]);
    assert!(matches!(dev.process(&bad, true, &srcs), Err(PatchError::NotFound(_))));
    let worse = hash(vec![("_path", s("patch.yaml")), ("_copy", h(vec![("X", h(vec![("from", s("a:b:c"))]))]))]);
    assert!(matches!(dev.process(&worse, true, &srcs), Err(PatchError::Invalid(_))));
}

#[test]
fn device_derives_a_peripheral() {
    let uart4 = periph("UART4", vec![reg("DR", 0, "Data")]);
    let mut uart5 = periph("UART5", vec![reg("DR", 0, "Data")]);
    uart5.base_address = 0x4000_5000;
    uart5.interrupt.push(Interrupt { name: "UART5".to_string(), description: None, value: 53 });
    let mut uart6 = periph("UART6", vec![]);
    uart6.registers = None;
    uart6.derived_from = Some("UART5".to_string());
    let mut dev = device(vec![uart4, uart5, uart6]);
    let root = hash(vec![("_derive", h(vec![("UART5", s("UART4"))]))]);
    dev.process(&root, true, &Vec::new()).unwrap();
    let u5 = &dev.peripherals[1];
    assert_eq!(u5.derived_from.as_deref(), Some("UART4"));
    assert!(u5.registers.is_none());
    assert_eq!(u5.base_address, 0x4000_5000);
    assert_eq!(u5.interrupt.len(), 1);
    assert_eq!(dev.peripherals[2].derived_from.as_deref(), Some("UART4"));
    let bad = hash(vec![("_derive", h(vec![("UART5", s("UART9"))]))]);
    assert!(matches!(dev.process(&bad, true, &Vec::new()), Err(PatchError::NotFound(_))));
}

#[test]
fn device_rebases_a_peripheral() {
    let mut i2c3 = periph("I2C3", vec![reg("CR1", 0, "Control 1")]);
    i2c3.base_address = 0x4000_5C00;
    i2c3.interrupt.push(Interrupt { name: "I2C3_EV".to_string(), description: None, value: 72 });
    let mut i2c1 = periph("I2C1", vec![]);
    i2c1.registers = None;
    i2c1.derived_from = Some("I2C3".to_string());
    i2c1.base_address = 0x4000_5400;
    i2c1.interrupt.push(Interrupt { name: "I2C1_EV".to_string(), description: None, value: 31 });
    let mut i2c2 = periph("I2C2", vec![]);
    i2c2.registers = None;
    i2c2.derived_from = Some("I2C3".to_string());
    let mut dev = device(vec![i2c1, i2c2, i2c3]);
    let root = hash(vec![("_rebase", h(vec![("I2C1", s("I2C3"))]))]);
    dev.process(&root, true, &Vec::new()).unwrap();
    let i1 = &dev.peripherals[0];
    assert_eq!(i1.name, "I2C1");
    assert!(i1.derived_from.is_none());
    assert_eq!(i1.base_address, 0x4000_5400);
    assert_eq!(i1.interrupt[0].name, "I2C1_EV");
    assert_eq!(i1.registers.as_ref().unwrap().len(), 1);
    assert_eq!(dev.peripherals[1].derived_from.as_deref(), Some("I2C1"));
    let i3 = &dev.peripherals[2];
    assert_eq!(i3.derived_from.as_deref(), Some("I2C1"));
    assert!(i3.registers.is_none());
    assert_eq!(i3.base_address, 0x4000_5C00);
    assert_eq!(i3.interrupt[0].name, "I2C3_EV");
}

#[test]
fn device_deletes_adds_and_modifies_peripherals() {
    let mut dev = device(vec![periph("TIM1", vec![]), periph("TIM2", vec![]), periph("GPIOA", vec![])]);
    let root = hash(vec![
        ("_delete", Yaml::Array(vec![s("TIM*")])),
        ("_modify", h(vec![("GPIOA", h(vec![("description", s("General purpose I/O"))]))])),
        ("_add", h(vec![("GPIOB", h(vec![("baseAddress", Yaml::Integer(0x4800_0400))]))])),
    ]);
    dev.process(&root, true, &Vec::new()).unwrap();
    let names: Vec<&str> = dev.peripherals.iter().map(|p| p.name.as_str()).collect();
    assert_eq!(names, vec!["GPIOA", "GPIOB"]);
    assert_eq!(dev.peripherals[0].description.as_deref(), Some("General purpose I/O"));
    assert_eq!(dev.peripherals[1].base_address, 0x4800_0400);
    let again = hash(vec![("_add", h(vec![("GPIOB", h(vec![("baseAddress", Yaml::Integer(0))]))]))]);
    assert!(matches!(dev.process(&again, true, &Vec::new()), Err(PatchError::AlreadyExists(_))));
    let missing = hash(vec![("TIM9", h(vec![]))]);
    assert!(matches!(dev.process(&missing, true, &Vec::new()), Err(PatchError::NotFound(_))));
}
