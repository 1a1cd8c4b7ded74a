use dness::addr::{IpAddress, Ipv6Address};
use dness::addr6::{ipv6_string, parse_ipv6};
use dness::reconcile::{Reconciler, RemoteRecord};
use dness::summary::Updates;

fn v6(s0: u16, s1: u16, s2: u16, s3: u16, s4: u16, s5: u16, s6: u16, s7: u16) -> Ipv6Address {
    Ipv6Address { s0, s1, s2, s3, s4, s5, s6, s7 }
}

#[test]
fn parses_full_and_elided_forms() {
    assert_eq!(
        parse_ipv6("1:2:3:4:5:6:7:8"),
        Some(v6(1, 2, 3, 4, 5, 6, 7, 8))
    );
    assert_eq!(parse_ipv6("::1"), Some(v6(0, 0, 0, 0, 0, 0, 0, 1)));
    assert_eq!(parse_ipv6("::"), Some(v6(0, 0, 0, 0, 0, 0, 0, 0)));
    assert_eq!(parse_ipv6("1::"), Some(v6(1, 0, 0, 0, 0, 0, 0, 0)));
    assert_eq!(
        parse_ipv6("2001:db8::1"),
        Some(v6(0x2001, 0xdb8, 0, 0, 0, 0, 0, 1))
    );
    assert_eq!(
        parse_ipv6("1:2:3:4:5:6:7::"),
        Some(v6(1, 2, 3, 4, 5, 6, 7, 0))
    );
    assert_eq!(
        parse_ipv6("ABCD:ef01::09"),
        Some(v6(0xabcd, 0xef01, 0, 0, 0, 0, 0, 9))
    );
}

#[test]
fn parses_embedded_dotted_quads() {
    assert_eq!(
        parse_ipv6("::ffff:192.168.0.1"),
        Some(v6(0, 0, 0, 0, 0, 0xffff, 0xc0a8, 0x0001))
    );
    assert_eq!(
        parse_ipv6("1:2:3:4:5:6:1.2.3.4"),
        Some(v6(1, 2, 3, 4, 5, 6, 0x0102, 0x0304))
    );
    assert_eq!(parse_ipv6("::256.1.1.1"), None);
    assert_eq!(parse_ipv6("1.2.3.4::"), None);
    assert_eq!(parse_ipv6("::1.2.3"), None);
}

#[test]
fn rejects_malformed_texts() {
    assert_eq!(parse_ipv6(""), None);
    assert_eq!(parse_ipv6(":"), None);
    assert_eq!(parse_ipv6(":::"), None);
    assert_eq!(parse_ipv6("1:2:3:4:5:6:7:8:9"), None);
    assert_eq!(parse_ipv6("1:2:3:4:5:6:7:8::"), None);
    assert_eq!(parse_ipv6("1::2::3"), None);
    assert_eq!(parse_ipv6("12345::"), None);
    assert_eq!(parse_ipv6("1:2:3:4:5:6:7"), None);
    assert_eq!(parse_ipv6("g::1"), None);
    assert_eq!(parse_ipv6("1.2.3.4"), None);
    assert_eq!(parse_ipv6("2001:db8::1 "), None);
}

#[test]
fn more_exact_samples() {
    assert_eq!(parse_ipv6("fe80::"), Some(v6(0xfe80, 0, 0, 0, 0, 0, 0, 0)));
    assert_eq!(parse_ipv6("0:0:0:0:0:0:0:1"), Some(v6(0, 0, 0, 0, 0, 0, 0, 1)));
    // hex groups may carry leading zeros; embedded dotted-quad octets may not
    assert_eq!(parse_ipv6("0001::1"), Some(v6(1, 0, 0, 0, 0, 0, 0, 1)));
    assert_eq!(parse_ipv6("::01.2.3.4"), None);
}

#[test]
fn formats_uncompressed_text() {
    assert_eq!(
        ipv6_string(&v6(0x2001, 0xdb8, 0, 0, 0, 0, 0, 1)),
        String::from("2001:db8:0:0:0:0:0:1")
    );
    assert_eq!(
        ipv6_string(&v6(0, 0, 0, 0, 0, 0, 0, 0)),
        String::from("0:0:0:0:0:0:0:0")
    );
    assert_eq!(
        ipv6_string(&v6(0xffff, 0xabcd, 1, 2, 3, 4, 5, 6)),
        String::from("ffff:abcd:1:2:3:4:5:6")
    );
}

#[test]
fn v6_format_then_parse_round_trips() {
    let a = v6(0xfe80, 0, 0, 0, 0x1234, 0, 0x00ff, 9);
    assert_eq!(parse_ipv6(ipv6_string(&a).as_str()), Some(a));
}

#[test]
fn v6_pass_counts_like_the_v4_pass() {
    let target = v6(0x2001, 0xdb8, 0, 0, 0, 0, 0, 1);
    let rec = |name: &str, content: &str| RemoteRecord {
        name: String::from(name),
        id: String::from(name),
        content: String::from(content),
        extras: serde_json::Value::Null,
    };
    let desired = vec![String::from("@"), String::from("a"), String::from("b")];
    let remote = vec![
        rec("@", "2001:db8::1"),
        rec("a", "2001:db8::2"),
        rec("b", "not an address"),
    ];
    let mut pass = Reconciler::new_v6(desired, remote, target);
    assert_eq!(pass.next_update(), Some(1));
    assert_eq!(pass.next_update(), Some(2));
    assert_eq!(pass.next_update(), None);
    assert_eq!(pass.summary(), Updates { updated: 2, current: 1, missing: 0 });
}
