use sockets_map::graphviz::LayoutEngine;
use sockets_map::net::{parse_ip, parse_ipv4, parse_ipv6, parse_sock_addr, IpAddr};
use sockets_map::text::{dec_string, hex_string, parse_u32};

#[test]
fn ipv4_parsing() {
    assert_eq!(parse_ipv4("0.0.0.0"), Some(IpAddr::V4(0)));
    assert_eq!(parse_ipv4("127.0.0.1"), Some(IpAddr::V4(0x7f00_0001)));
    assert_eq!(parse_ipv4("10.0.0.2"), Some(IpAddr::V4(0x0a00_0002)));
    assert_eq!(parse_ipv4("255.255.255.255"), Some(IpAddr::V4(0xffff_ffff)));
    assert_eq!(parse_ipv4("10.0.0.256"), None);
    assert_eq!(parse_ipv4("10.0.0"), None);
    assert_eq!(parse_ipv4("10.0.0.1.2"), None);
    assert_eq!(parse_ipv4("10.0.0.x"), None);
    assert_eq!(parse_ipv4(""), None);
}

#[test]
fn ipv6_parsing() {
    assert_eq!(parse_ipv6("::"), Some(IpAddr::V6(0)));
    assert_eq!(parse_ipv6("::1"), Some(IpAddr::V6(1)));
    assert_eq!(parse_ipv6("1::"), Some(IpAddr::V6(1u128 << 112)));
    assert_eq!(
        parse_ipv6("2001:db8::1"),
        Some(IpAddr::V6(0x2001_0db8_0000_0000_0000_0000_0000_0001))
    );
    assert_eq!(
        parse_ipv6("1:2:3:4:5:6:7:8"),
        Some(IpAddr::V6(0x0001_0002_0003_0004_0005_0006_0007_0008))
    );
    assert_eq!(
        parse_ipv6("::ffff:10.0.0.1"),
        Some(IpAddr::V6(0x0000_0000_0000_0000_0000_ffff_0a00_0001))
    );
    assert_eq!(parse_ipv6("1::2::3"), None);
    assert_eq!(parse_ipv6(":::1"), None);
    assert_eq!(parse_ipv6("12345::"), None);
    assert_eq!(parse_ipv6("1:2:3:4:5:6:7:8:9"), None);
    assert_eq!(parse_ipv6("1:2:3:4:5:6:7:8::"), None);
    assert_eq!(parse_ipv6("g::"), None);
}

#[test]
fn mapped_addresses_mirror_ipv4() {
    let v4 = parse_ip("10.0.0.1").unwrap();
    assert_eq!(v4.to_v6_mapped(), parse_ip("::ffff:10.0.0.1").unwrap());
    let v6 = parse_ip("::1").unwrap();
    assert_eq!(v6.to_v6_mapped(), v6);
}

#[test]
fn loopback_detection() {
    assert!(parse_ip("127.0.0.1").unwrap().is_loopback());
    assert!(parse_ip("127.9.9.9").unwrap().is_loopback());
    assert!(parse_ip("::1").unwrap().is_loopback());
    assert!(!parse_ip("10.0.0.1").unwrap().is_loopback());
    // The mapped form of an IPv4 loopback is not itself loopback.
    assert!(!parse_ip("::ffff:127.0.0.1").unwrap().is_loopback());
}

#[test]
fn socket_address_parsing() {
    let s = parse_sock_addr("10.0.0.2:5688").unwrap();
    assert_eq!(s.ip(), parse_ip("10.0.0.2").unwrap());
    assert_eq!(s.port(), 5688);
    let s6 = parse_sock_addr("[::ffff:10.0.0.1]:22").unwrap();
    assert_eq!(s6.ip(), parse_ip("::ffff:10.0.0.1").unwrap());
    assert_eq!(s6.port(), 22);
    assert!(s6.is_ipv6());
    assert_eq!(parse_sock_addr("10.0.0.2:99999"), None);
    assert_eq!(parse_sock_addr("10.0.0.2"), None);
    assert_eq!(parse_sock_addr("[::1]:0").unwrap().port(), 0);
    assert_eq!(parse_sock_addr("[::1:80"), None);
}

#[test]
fn numbers_render_and_parse() {
    assert_eq!(dec_string(0).as_str(), "0");
    assert_eq!(dec_string(12345).as_str(), "12345");
    assert_eq!(hex_string(0).as_str(), "0");
    assert_eq!(hex_string(0xdead).as_str(), "dead");
    assert_eq!(parse_u32("0042"), Some(42));
    assert_eq!(parse_u32(""), None);
    assert_eq!(parse_u32("12x"), None);
    assert_eq!(parse_u32("4294967295"), Some(u32::MAX));
    assert_eq!(parse_u32("4294967296"), None);
}

#[test]
fn layout_engines_by_name() {
    assert_eq!(LayoutEngine::from_name("dot"), Some(LayoutEngine::Dot));
    assert_eq!(LayoutEngine::from_name("neato"), Some(LayoutEngine::Neato));
    assert_eq!(LayoutEngine::from_name("fdp"), Some(LayoutEngine::Fdp));
    assert_eq!(LayoutEngine::from_name("circo"), Some(LayoutEngine::Circo));
    assert_eq!(LayoutEngine::from_name("sfdp"), None);
    assert_eq!(LayoutEngine::Dot.name(), "dot");
    assert_eq!(LayoutEngine::Circo.name(), "circo");
}
