use svdtools::analyze::{analyze, CompareConfig};
use svdtools::model::{BitRangeType, Device, Field, Peripheral, Register, RegisterCluster, RegisterProperties};

fn no_props() -> RegisterProperties {
    RegisterProperties { size: None, access: None, protection: None, reset_value: None, reset_mask: None }
}

fn field(name: &str, offset: u32) -> Field {
    Field {
        name: name.to_string(),
        description: None,
        bit_offset: offset,
        bit_width: 2,
        range_type: BitRangeType::OffsetWidth,
        access: None,
        modified_write_values: None,
        write_constraint: None,
        read_action: None,
        enumerated_values: Vec::new(),
        derived_from: None,
        dim: None,
    }
}

fn reg(name: &str, fields: Vec<Field>) -> Register {
    Register {
        name: name.to_string(),
        display_name: None,
        description: None,
        alternate_group: None,
        alternate_register: None,
        address_offset: 0,
        properties: no_props(),
        datatype: None,
        modified_write_values: None,
        write_constraint: None,
        read_action: None,
        fields: Some(fields),
        derived_from: None,
        dim: None,
    }
}

fn periph(name: &str, regs: Vec<RegisterCluster>) -> Peripheral {
    Peripheral {
        name: name.to_string(),
        display_name: None,
        version: None,
        description: None,
        alternate_peripheral: None,
        group_name: None,
        prepend_to_name: None,
        append_to_name: None,
        header_struct_name: None,
        base_address: 0,
        default_register_properties: no_props(),
        address_block: None,
        interrupt: Vec::new(),
        registers: Some(regs),
        derived_from: None,
        dim: None,
    }
}

fn device(ps: Vec<Peripheral>) -> Device {
    Device {
        vendor: None,
        vendor_id: None,
        name: "DEV".to_string(),
        series: None,
        version: "1.0".to_string(),
        description: "A device".to_string(),
        license_text: None,
        cpu: None,
        header_system_filename: None,
        header_definitions_prefix: None,
        address_unit_bits: 8,
        width: 32,
        default_register_properties: no_props(),
        peripherals: ps,
    }
}

fn block(name: &str) -> Peripheral {
    periph(
        name,
        vec![
            RegisterCluster::Register(reg("R1", vec![field("F1", 0), field("F2", 4)])),
            RegisterCluster::Register(reg("R2", vec![field("F1", 0), field("F2", 4)])),
        ],
    )
}

fn config(compare_description: bool, with_fields: bool) -> CompareConfig {
    CompareConfig { compare_description, with_fields }
}

#[test]
fn copies_of_peripherals_registers_and_fields() {
    let dev = device(vec![block("A"), block("B")]);
    let got = analyze(&dev, &config(false, true));
    assert_eq!(
        got,
        vec![
            "Peripheral B == A".to_string(),
            "In peripheral A: register R1 == R2".to_string(),
            "In register A.R1: field F1 == F2".to_string(),
        ]
    );
}

#[test]
fn fields_only_when_asked() {
    let dev = device(vec![block("A"), block("B")]);
    let got = analyze(&dev, &config(false, false));
    assert_eq!(got, vec!["Peripheral B == A".to_string(), "In peripheral A: register R1 == R2".to_string()]);
}

#[test]
fn derived_peripherals_are_no_copies() {
    let mut b = block("B");
    b.derived_from = Some("A".to_string());
    let dev = device(vec![block("A"), b]);
    let got = analyze(&dev, &config(false, false));
    assert_eq!(
        got,
        vec!["In peripheral A: register R1 == R2".to_string(), "In peripheral B: register R1 == R2".to_string()]
    );
}

#[test]
fn descriptions_count_when_compared() {
    let mut b = block("B");
    b.description = Some("other".to_string());
    let dev = device(vec![block("A"), b]);
    assert_eq!(analyze(&dev, &config(false, false))[0], "Peripheral B == A".to_string());
    let got = analyze(&dev, &config(true, false));
    assert_eq!(
        got,
        vec!["In peripheral A: register R1 == R2".to_string(), "In peripheral B: register R1 == R2".to_string()]
    );
}

#[test]
fn different_widths_are_no_copies() {
    let mut f2 = field("F2", 4);
    f2.bit_width = 3;
    let r = reg("R1", vec![field("F1", 0), f2]);
    let dev = device(vec![periph("A", vec![RegisterCluster::Register(r)])]);
    assert!(analyze(&dev, &config(false, true)).is_empty());
}
