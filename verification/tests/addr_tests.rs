use dness::addr::{ipv4_string, parse_ipv4, IpAddress, IpType, Ipv4Address, Ipv6Address};

fn v4(o0: u8, o1: u8, o2: u8, o3: u8) -> Ipv4Address {
    Ipv4Address { o0, o1, o2, o3 }
}

#[test]
fn parses_plain_dotted_quad() {
    assert_eq!(parse_ipv4("2.2.2.2"), Some(v4(2, 2, 2, 2)));
    assert_eq!(parse_ipv4("192.168.0.1"), Some(v4(192, 168, 0, 1)));
    assert_eq!(parse_ipv4("0.0.0.0"), Some(v4(0, 0, 0, 0)));
    assert_eq!(parse_ipv4("255.255.255.255"), Some(v4(255, 255, 255, 255)));
}

#[test]
fn rejects_out_of_range_octets() {
    assert_eq!(parse_ipv4("256.256.256.256"), None);
    assert_eq!(parse_ipv4("1.2.3.300"), None);
}

#[test]
fn rejects_malformed_shapes() {
    assert_eq!(parse_ipv4(""), None);
    assert_eq!(parse_ipv4("1.2.3"), None);
    assert_eq!(parse_ipv4("1.2.3.4.5"), None);
    assert_eq!(parse_ipv4("1..2.3"), None);
    assert_eq!(parse_ipv4("a.b.c.d"), None);
    assert_eq!(parse_ipv4("1.2.3.4 "), None);
    assert_eq!(parse_ipv4("1.2.3.4."), None);
    assert_eq!(parse_ipv4(".1.2.3.4"), None);
    assert_eq!(parse_ipv4("not an address"), None);
}

#[test]
fn rejects_leading_zeros() {
    assert_eq!(parse_ipv4("01.2.3.4"), None);
    assert_eq!(parse_ipv4("1.2.3.04"), None);
    assert_eq!(parse_ipv4("0.2.3.4"), Some(v4(0, 2, 3, 4)));
}

#[test]
fn formats_dotted_quad() {
    assert_eq!(ipv4_string(&v4(2, 2, 2, 2)), String::from("2.2.2.2"));
    assert_eq!(ipv4_string(&v4(192, 168, 10, 255)), String::from("192.168.10.255"));
    assert_eq!(ipv4_string(&v4(0, 0, 0, 0)), String::from("0.0.0.0"));
}

#[test]
fn format_then_parse_round_trips() {
    let a = v4(10, 0, 200, 7);
    assert_eq!(parse_ipv4(ipv4_string(&a).as_str()), Some(a));
}

#[test]
fn families_and_record_types() {
    let a = IpAddress::V4(v4(1, 2, 3, 4));
    let b = IpAddress::V6(Ipv6Address { s0: 0, s1: 0, s2: 0, s3: 0, s4: 0, s5: 0, s6: 0, s7: 1 });
    assert_eq!(a.family(), IpType::V4);
    assert_eq!(b.family(), IpType::V6);
    assert_eq!(IpType::V4.record_type(), "A");
    assert_eq!(IpType::V6.record_type(), "AAAA");
}
