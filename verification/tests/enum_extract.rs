use svdtools::enum_extract::{enum_extract, evs_to_hash, HasEnums};
use svdtools::model::{
    BitRangeType, Cluster, Device, EnumeratedValue, EnumeratedValues, Field, Peripheral, Register, RegisterCluster,
    RegisterProperties, Usage,
};
use svdtools::patch::yaml::{yaml_eq, Yaml, YamlHash};

fn s(x: &str) -> Yaml {
    Yaml::String(x.to_string())
}

fn h(pairs: Vec<(&str, Yaml)>) -> Yaml {
    Yaml::Hash(YamlHash { entries: pairs.into_iter().map(|(k, v)| (s(k), v)).collect() })
}

fn no_props() -> RegisterProperties {
    RegisterProperties { size: None, access: None, protection: None, reset_value: None, reset_mask: None }
}

fn value(name: &str, v: Option<u64>, default: bool, desc: Option<&str>) -> EnumeratedValue {
    EnumeratedValue {
        name: name.to_string(),
        description: desc.map(|d| d.to_string()),
        value: v,
        is_default: if default { Some(true) } else { None },
    }
}

fn set(name: Option<&str>, usage: Option<Usage>, values: Vec<EnumeratedValue>) -> EnumeratedValues {
    EnumeratedValues { name: name.map(|n| n.to_string()), usage, derived_from: None, values }
}

fn field(name: &str, sets: Vec<EnumeratedValues>) -> Field {
    Field {
        name: name.to_string(),
        description: None,
        bit_offset: 0,
        bit_width: 2,
        range_type: BitRangeType::OffsetWidth,
        access: None,
        modified_write_values: None,
        write_constraint: None,
        read_action: None,
        enumerated_values: sets,
        derived_from: None,
        dim: None,
    }
}

fn reg(name: &str, fields: Vec<Field>) -> Register {
    Register {
        name: name.to_string(),
        display_name: None,
        description: None,
        alternate_group: None,
        alternate_register: None,
        address_offset: 0,
        properties: no_props(),
        datatype: None,
        modified_write_values: None,
        write_constraint: None,
        read_action: None,
        fields: Some(fields),
        derived_from: None,
        dim: None,
    }
}

fn periph(name: &str, regs: Vec<RegisterCluster>) -> Peripheral {
    Peripheral {
        name: name.to_string(),
        display_name: None,
        version: None,
        description: None,
        alternate_peripheral: None,
        group_name: None,
        prepend_to_name: None,
        append_to_name: None,
        header_struct_name: None,
        base_address: 0,
        default_register_properties: no_props(),
        address_block: None,
        interrupt: Vec::new(),
        registers: Some(regs),
        derived_from: None,
        dim: None,
    }
}

fn device(ps: Vec<Peripheral>) -> Device {
    Device {
        vendor: None,
        vendor_id: None,
        name: "DEV".to_string(),
        series: None,
        version: "1.0".to_string(),
        description: "A device".to_string(),
        license_text: None,
        cpu: None,
        header_system_filename: None,
        header_definitions_prefix: None,
        address_unit_bits: 8,
        width: 32,
        default_register_properties: no_props(),
        peripherals: ps,
    }
}

#[test]
fn enumerated_values_to_yaml() {
    let e = set(
        Some("MODE_ENUM"),
        None,
        vec![value("A", Some(0), false, Some("First")), value("B", None, true, None)],
    );
    let got = Yaml::Hash(evs_to_hash(&e));
    let expected = h(vec![
        ("_name", s("MODE_ENUM")),
        ("A", Yaml::Array(vec![Yaml::Integer(0), s("First")])),
        ("B", Yaml::Array(vec![Yaml::Integer(-1), s("")])),
    ]);
    assert!(yaml_eq(&got, &expected));
    let mut derived = set(None, None, vec![]);
    derived.derived_from = Some("OTHER".to_string());
    assert!(yaml_eq(&Yaml::Hash(evs_to_hash(&derived)), &h(vec![("_derivedFrom", s("OTHER"))])));
}

#[test]
fn device_enums_to_yaml() {
    let mode = field("MODE", vec![set(None, None, vec![value("OFF", Some(0), false, Some("Off"))])]);
    let dir = field(
        "DIR",
        vec![
            set(None, Some(Usage::Read), vec![value("IN", Some(0), false, None)]),
            set(None, Some(Usage::Write), vec![value("OUT", Some(1), false, None)]),
        ],
    );
    let plain = field("PLAIN", vec![]);
    let inner = Cluster {
        name: "CH".to_string(),
        description: None,
        alternate_cluster: None,
        header_struct_name: None,
        address_offset: 0x10,
        default_register_properties: no_props(),
        children: vec![RegisterCluster::Register(reg("CCR", vec![field("MODE", vec![set(None, None, vec![value("OFF", Some(0), false, None)])])]))],
        derived_from: None,
        dim: None,
    };
    let p = periph(
        "GPIO",
        vec![
            RegisterCluster::Register(reg("CR", vec![mode, plain])),
            RegisterCluster::Register(reg("DR", vec![dir])),
            RegisterCluster::Register(reg("SR", vec![field("X", vec![])])),
            RegisterCluster::Cluster(inner),
        ],
    );
    assert!(p.has_enums());
    let quiet = periph("RCC", vec![RegisterCluster::Register(reg("CR", vec![field("X", vec![])]))]);
    assert!(!quiet.has_enums());
    let got = enum_extract(&device(vec![p, quiet]));
    let expected = h(vec![(
        "GPIO",
        h(vec![
            ("CR", h(vec![("MODE", h(vec![("OFF", Yaml::Array(vec![Yaml::Integer(0), s("Off")]))]))])),
            (
                "DR",
                h(vec![(
                    "DIR",
                    h(vec![
                        ("_read", h(vec![("IN", Yaml::Array(vec![Yaml::Integer(0), s("")]))])),
                        ("_write", h(vec![("OUT", Yaml::Array(vec![Yaml::Integer(1), s("")]))])),
                    ]),
                )]),
            ),
            (
                "_clusters",
                h(vec![(
                    "CH",
                    h(vec![("CCR", h(vec![("MODE", h(vec![("OFF", Yaml::Array(vec![Yaml::Integer(0), s("")]))]))]))]),
                )]),
            ),
        ]),
    )]);
    assert!(yaml_eq(&got, &expected));
}
