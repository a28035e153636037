use svdtools::convert::{ConfigFormat, FormatError, InputFormat, OutputFormat, ParserConfig};
use svdtools::info::Request;
use svdtools::makedeps::deps_text;
use svdtools::model::{Device, RegisterProperties};

#[test]
fn input_formats_by_name() {
    for n in ["svd", "SVD", "xml", "XML"] {
        assert_eq!(InputFormat::from_name(n).unwrap(), InputFormat::Xml);
    }
    for n in ["yml", "yaml", "YAML"] {
        assert_eq!(InputFormat::from_name(n).unwrap(), InputFormat::Yaml);
    }
    for n in ["json", "JSON"] {
        assert_eq!(InputFormat::from_name(n).unwrap(), InputFormat::Json);
    }
    assert!(matches!(InputFormat::from_name("txt"), Err(FormatError::UnknownInput)));
    assert!(matches!(InputFormat::from_name("Yaml"), Err(FormatError::UnknownInput)));
}

#[test]
fn output_and_config_formats_by_name() {
    assert_eq!(OutputFormat::from_name("XML").unwrap(), OutputFormat::Xml);
    assert_eq!(OutputFormat::from_name("yml").unwrap(), OutputFormat::Yaml);
    assert!(matches!(OutputFormat::from_name("svd2"), Err(FormatError::UnknownOutput)));
    assert_eq!(ConfigFormat::from_name("yaml").unwrap(), ConfigFormat::Yaml);
    assert_eq!(ConfigFormat::from_name("JSON").unwrap(), ConfigFormat::Json);
    assert!(matches!(ConfigFormat::from_name("xml"), Err(FormatError::UnknownConfig)));
}

#[test]
fn formats_picked_from_extensions() {
    assert_eq!(InputFormat::pick(Some(InputFormat::Json), Some("svd")).unwrap(), InputFormat::Json);
    assert_eq!(InputFormat::pick(None, Some("svd")).unwrap(), InputFormat::Xml);
    assert!(matches!(InputFormat::pick(None, None), Err(FormatError::UnknownInput)));
    assert_eq!(OutputFormat::pick(None, Some("json")).unwrap(), OutputFormat::Json);
    assert!(matches!(OutputFormat::pick(None, Some("bin")), Err(FormatError::UnknownOutput)));
}

#[test]
fn parser_config_default() {
    let c = ParserConfig::default();
    assert!(!c.expand && !c.expand_properties && !c.ignore_enums);
}

#[test]
fn device_name_request() {
    let dev = Device {
        vendor: None,
        vendor_id: None,
        name: "STM32F0".to_string(),
        series: None,
        version: "1.0".to_string(),
        description: "A device".to_string(),
        license_text: None,
        cpu: None,
        header_system_filename: None,
        header_definitions_prefix: None,
        address_unit_bits: 8,
        width: 32,
        default_register_properties: RegisterProperties {
            size: None,
            access: None,
            protection: None,
            reset_value: None,
            reset_mask: None,
        },
        peripherals: Vec::new(),
    };
    let r = Request::from_name("device-name").unwrap();
    assert_eq!(r.process(&dev).unwrap(), "STM32F0");
    assert!(Request::from_name("device").is_err());
}

#[test]
fn dependency_line() {
    let deps = vec!["/a/inc1.yaml".to_string(), "/a/inc2.yaml".to_string()];
    assert_eq!(deps_text("test.d", &deps), "test.d: /a/inc1.yaml /a/inc2.yaml");
    assert_eq!(deps_text("test.d", &Vec::new()), "test.d:");
}
