use plctag::builder::{Error, PathBuilder, PlcKind, Protocol, Register};
use plctag::debug::DebugLevel;

#[test]
fn test_eip_builder() {
    let path = PathBuilder::default()
        .protocol(Protocol::EIP)
        .gateway("192.168.1.120")
        .plc(PlcKind::ControlLogix)
        .name("MyTag1")
        .element_size(16)
        .element_count(1)
        .path("1,0")
        .read_cache_ms(0)
        .build()
        .unwrap();
    assert_eq!(path, "protocol=ab-eip&plc=controllogix&gateway=192.168.1.120&path=1,0&name=MyTag1&elem_count=1&elem_size=16&read_cache_ms=0");
}

#[test]
fn test_modbus_builder() {
    let path = PathBuilder::default()
        .protocol(Protocol::ModBus)
        .gateway("192.168.1.120:502")
        .path("0")
        .register(Register::Coil(42))
        .element_size(16)
        .element_count(1)
        .read_cache_ms(0)
        .build()
        .unwrap();
    assert_eq!(path, "protocol=modbus-tcp&gateway=192.168.1.120:502&path=0&name=co42&elem_count=1&elem_size=16&read_cache_ms=0");
}

#[test]
fn builder_requires_protocol() {
    let r = PathBuilder::default().gateway("10.0.0.1").build();
    assert_eq!(r, Err(Error::ProtocolRequired));
    assert_eq!(Error::ProtocolRequired.message(), "protocol required");
}

#[test]
fn builder_eip_rules() {
    let r = PathBuilder::default().protocol(Protocol::EIP).build();
    assert_eq!(r, Err(Error::PlcKindRequired));
    let r = PathBuilder::default().protocol(Protocol::EIP).plc(PlcKind::ControlLogix).build();
    assert_eq!(r, Err(Error::PathRequiredForControlLogix));
    let r = PathBuilder::default()
        .protocol(Protocol::EIP)
        .plc(PlcKind::Micro800)
        .path("1,0")
        .element_size(4)
        .build();
    assert_eq!(r, Err(Error::PathNotAllowedForMicro800));
    let r = PathBuilder::default().protocol(Protocol::EIP).plc(PlcKind::PLC5).build();
    assert_eq!(r, Err(Error::ElementSizeRequired));
    let r = PathBuilder::default()
        .protocol(Protocol::EIP)
        .plc(PlcKind::Micro800)
        .gateway("10.0.0.2")
        .name("T")
        .element_size(4)
        .use_connected_msg(true)
        .debug(DebugLevel::Detail)
        .build();
    assert_eq!(
        r.unwrap(),
        "protocol=ab-eip&plc=micro800&use_connected_msg=1&gateway=10.0.0.2&name=T&elem_size=4&debug=4"
    );
}

#[test]
fn builder_modbus_rules() {
    let r = PathBuilder::default().protocol(Protocol::ModBus).build();
    assert_eq!(r, Err(Error::GatewayRequired));
    let r = PathBuilder::default().protocol(Protocol::ModBus).gateway("h").build();
    assert_eq!(r, Err(Error::NameRequired));
    let r = PathBuilder::default().protocol(Protocol::ModBus).gateway("h").name("hr1").build();
    assert_eq!(r, Err(Error::PathRequired));
    for bad in ["256", "", "+", "-1", "1a", " 1", "1000"] {
        let r = PathBuilder::default()
            .protocol(Protocol::ModBus)
            .gateway("h")
            .name("hr1")
            .path(bad)
            .element_size(2)
            .build();
        assert_eq!(r, Err(Error::PathNotUnitId), "path {:?}", bad);
    }
    for good in ["255", "0", "+7", "007"] {
        let r = PathBuilder::default()
            .protocol(Protocol::ModBus)
            .gateway("h")
            .name("hr1")
            .path(good)
            .element_size(2)
            .build();
        assert!(r.is_ok(), "path {:?}", good);
    }
    // the element size is ignored for Modbus
    let r = PathBuilder::default().protocol(Protocol::ModBus).gateway("h").name("hr1").path("3").build();
    assert_eq!(r.unwrap(), "protocol=modbus-tcp&gateway=h&path=3&name=hr1");
}

#[test]
fn builder_texts() {
    assert_eq!(Register::Discrete(0).to_string(), "di0");
    assert_eq!(Register::Holding(65535).to_string(), "hr65535");
    assert_eq!(Register::Input(64000).to_string(), "ir64000");
    assert_eq!(Protocol::ModBus.to_string(), "modbus-tcp");
    assert_eq!(PlcKind::LogixPCCC.to_string(), "logixpccc");
    assert_eq!(PlcKind::SLC500.as_str(), "slc500");
    assert_eq!(PlcKind::MicroLogix.as_str(), "micrologix");
    assert_eq!(Error::PathNotUnitId.to_string(), "path is a number in range [0-255]");
}

#[test]
fn builder_modbus_omits_eip_attributes() {
    let path = PathBuilder::default()
        .protocol(Protocol::ModBus)
        .plc(PlcKind::PLC5)
        .use_connected_msg(false)
        .gateway("h:502")
        .path("1")
        .name("co1")
        .element_size(1)
        .build()
        .unwrap();
    assert_eq!(path, "protocol=modbus-tcp&gateway=h:502&path=1&name=co1&elem_size=1");
}

#[test]
fn debug_levels() {
    assert_eq!(DebugLevel::from(3u8), DebugLevel::Info);
    assert_eq!(DebugLevel::from(9u8), DebugLevel::Off);
    assert_eq!(DebugLevel::Spew.value(), 5);
    assert_eq!(plctag::debug::debug_level_of_attr(0x104), DebugLevel::Detail);
}

#[test]
fn builder_plc_is_second_segment() {
    let path = PathBuilder::default()
        .protocol(Protocol::EIP)
        .gateway("10.0.0.1")
        .plc(PlcKind::SLC500)
        .use_connected_msg(false)
        .element_size(2)
        .build()
        .unwrap();
    let segments: Vec<&str> = path.split('&').collect();
    assert_eq!(segments[1], "plc=slc500");
    assert_eq!(segments[2], "use_connected_msg=0");
}

#[test]
fn builder_register_replaces_name() {
    let path = PathBuilder::default()
        .protocol(Protocol::ModBus)
        .gateway("h")
        .path("1")
        .name("old")
        .register(Register::Input(64000))
        .build()
        .unwrap();
    assert!(path.split('&').any(|s| s == "name=ir64000"));
    assert!(!path.contains("name=old"));
    assert!(!path.split('&').any(|s| s.starts_with("plc=") || s.starts_with("use_connected_msg=")));
}
