use svdtools::common::str_utils::{format_address, get_description, unwrap_or_empty_str};

#[test]
fn correctly_format_address() {
    let addr: u32 = 0xde4dBeeF;
    let formatted_addr = format_address(addr as u64);
    assert_eq!(formatted_addr, "0xDE4DBEEF");
}

#[test]
fn format_address_adds_no_padding() {
    assert_eq!(format_address(0x1f), "0x1F");
    assert_eq!(format_address(0), "0x0");
}

#[test]
fn format_address_keeps_wide_values() {
    assert_eq!(format_address(0x1_2345_6789), "0x123456789");
}

#[test]
fn missing_text_reads_as_empty() {
    assert_eq!(unwrap_or_empty_str(&None), "");
    assert_eq!(unwrap_or_empty_str(&Some("abc".to_string())), "abc");
}

#[test]
fn description_whitespace_is_collapsed() {
    assert_eq!(get_description(&Some("  a\n   b  c ".to_string())), "a b c");
    assert_eq!(get_description(&None), "");
}
