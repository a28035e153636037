use svdtools::interrupts::svd_reader::Interrupt;
use svdtools::mmap::{access_with_brace, check_addresses, sort_texts, text_le, to_text};
use svdtools::model::{Access, BitRangeType, Field, Peripheral, Register, RegisterCluster, RegisterProperties};

fn no_props() -> RegisterProperties {
    RegisterProperties { size: None, access: None, protection: None, reset_value: None, reset_mask: None }
}

fn field(name: &str, offset: u32, width: u32, desc: &str) -> Field {
    Field {
        name: name.to_string(),
        description: Some(desc.to_string()),
        bit_offset: offset,
        bit_width: width,
        range_type: BitRangeType::OffsetWidth,
        access: None,
        modified_write_values: None,
        write_constraint: None,
        read_action: None,
        enumerated_values: Vec::new(),
        derived_from: None,
        dim: None,
    }
}

fn reg(name: &str, offset: u32, desc: &str, fields: Vec<Field>) -> Register {
    Register {
        name: name.to_string(),
        display_name: None,
        description: Some(desc.to_string()),
        alternate_group: None,
        alternate_register: None,
        address_offset: offset,
        properties: RegisterProperties { access: Some(Access::ReadWrite), ..no_props() },
        datatype: None,
        modified_write_values: None,
        write_constraint: None,
        read_action: None,
        fields: Some(fields),
        derived_from: None,
        dim: None,
    }
}

fn periph(name: &str, base: u64, regs: Option<Vec<Register>>) -> Peripheral {
    Peripheral {
        name: name.to_string(),
        display_name: None,
        version: None,
        description: None,
        alternate_peripheral: None,
        group_name: None,
        prepend_to_name: None,
        append_to_name: None,
        header_struct_name: None,
        base_address: base,
        default_register_properties: no_props(),
        address_block: None,
        interrupt: Vec::new(),
        registers: regs.map(|v| v.into_iter().map(RegisterCluster::Register).collect()),
        derived_from: None,
        dim: None,
    }
}

#[test]
fn memory_map_lines_are_sorted() {
    let mut dma = periph(
        "DMA",
        0x4000_0000,
        Some(vec![
            reg("SR", 0x4, "Status", vec![field("TC", 1, 1, "Transfer complete")]),
            reg("CR", 0x0, "Control   register", vec![field("EN", 0, 1, " Enable ")]),
        ]),
    );
    dma.interrupt.push(Interrupt { name: "DMA1".to_string(), description: Some("DMA channel 1".to_string()), value: 11 });
    let mut dma2 = periph("DMA2", 0x4000_0400, None);
    dma2.derived_from = Some("DMA".to_string());
    let ps = vec![dma, dma2];
    assert!(check_addresses(&ps));
    let text = to_text(&ps);
    let expected = [
        "0x40000000 A PERIPHERAL DMA",
        "0x40000000 B  REGISTER CR (rw): Control register",
        "0x40000000 C   FIELD 00w01 EN: Enable",
        "0x40000004 B  REGISTER SR (rw): Status",
        "0x40000004 C   FIELD 01w01 TC: Transfer complete",
        "0x40000400 A PERIPHERAL DMA2",
        "0x40000400 B  REGISTER CR (rw): Control register",
        "0x40000400 C   FIELD 00w01 EN: Enable",
        "0x40000404 B  REGISTER SR (rw): Status",
        "0x40000404 C   FIELD 01w01 TC: Transfer complete",
        "INTERRUPT 011: DMA1 (DMA): DMA channel 1",
    ]
    .join("\n");
    assert_eq!(text, expected);
}

#[test]
fn empty_memory_map() {
    assert_eq!(to_text(&Vec::new()), "");
}

#[test]
fn addresses_that_overflow_are_found() {
    let ps = vec![periph("BIG", u64::MAX, Some(vec![reg("CR", 0x10, "Control", vec![])]))];
    assert!(!check_addresses(&ps));
}

#[test]
fn access_in_brackets() {
    assert_eq!(access_with_brace(None), "");
    assert_eq!(access_with_brace(Some(Access::ReadOnly)), " (ro)");
    assert_eq!(access_with_brace(Some(Access::ReadWriteOnce)), " (rwonce)");
    assert_eq!(access_with_brace(Some(Access::WriteOnce)), " (wonce)");
    assert_eq!(access_with_brace(Some(Access::WriteOnly)), " (wo)");
}

#[test]
fn texts_sort_as_strings_do() {
    let v: Vec<String> = ["b", "a", "ab", "", "B", "ä"].iter().map(|x| x.to_string()).collect();
    let mut expected = v.clone();
    expected.sort();
    assert_eq!(sort_texts(v), expected);
    assert!(text_le("ab", "abc"));
    assert!(!text_le("abc", "ab"));
    assert!(text_le("ab", "ab"));
}
