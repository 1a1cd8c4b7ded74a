use dness::addr::{IpAddress, IpType, Ipv4Address};
use dness::lookup::{
    ddns_body_ok, dynu_params, errcount_body_ok, good_body_ok, he_params, namecheap_params,
    namecheap_update_url, nic_update_url, noip_params, LookupDecision, LookupPass,
};
use dness::summary::Updates;

fn v4(o0: u8, o1: u8, o2: u8, o3: u8) -> IpAddress {
    IpAddress::V4(Ipv4Address { o0, o1, o2, o3 })
}

#[test]
fn lookup_hit_on_target_is_current() {
    let target = v4(2, 2, 2, 2);
    let mut pass = LookupPass::new(vec![String::from("host")], target);
    assert_eq!(pass.next_name(), Some(&String::from("host")));
    let d = pass.report_lookup(Some(target));
    assert_eq!(d, LookupDecision::AlreadyCurrent);
    assert_eq!(pass.next_name(), None);
    assert_eq!(pass.summary(), Updates { updated: 0, current: 1, missing: 0 });
}

#[test]
fn failed_lookup_is_missing_not_fatal() {
    let target = v4(2, 2, 2, 2);
    let mut pass = LookupPass::new(vec![String::from("host")], target);
    let d = pass.report_lookup(None);
    assert_eq!(d, LookupDecision::Missing);
    assert_eq!(pass.summary(), Updates { updated: 0, current: 0, missing: 1 });
}

#[test]
fn lookup_elsewhere_needs_a_write() {
    let target = v4(2, 2, 2, 2);
    let mut pass = LookupPass::new(vec![String::from("host")], target);
    let d = pass.report_lookup(Some(v4(9, 9, 9, 9)));
    assert_eq!(d, LookupDecision::NeedsWrite);
    pass.confirm_write();
    assert_eq!(pass.summary(), Updates { updated: 1, current: 0, missing: 0 });
}

#[test]
fn mixed_lookups_accumulate() {
    let target = v4(2, 2, 2, 2);
    let names = vec![String::from("@"), String::from("a"), String::from("b")];
    let mut pass = LookupPass::new(names, target);
    assert_eq!(pass.report_lookup(Some(target)), LookupDecision::AlreadyCurrent);
    assert_eq!(pass.report_lookup(Some(v4(1, 1, 1, 1))), LookupDecision::NeedsWrite);
    pass.confirm_write();
    assert_eq!(pass.report_lookup(None), LookupDecision::Missing);
    assert_eq!(pass.summary(), Updates { updated: 1, current: 1, missing: 1 });
}

#[test]
fn second_lookup_pass_rewrites_nothing() {
    let target = v4(2, 2, 2, 2);
    let names = vec![String::from("@"), String::from("a"), String::from("b")];

    // first pass: one current, one written, one missing
    let first_results = [Some(target), Some(v4(1, 1, 1, 1)), None];
    let mut pass = LookupPass::new(names.clone(), target);
    for r in first_results {
        if pass.report_lookup(r) == LookupDecision::NeedsWrite {
            pass.confirm_write();
        }
    }
    let first = pass.summary();
    assert_eq!(first, Updates { updated: 1, current: 1, missing: 1 });

    // second pass: the written record now reads back as the target
    let second_results = [Some(target), Some(target), None];
    let mut pass = LookupPass::new(names, target);
    for r in second_results {
        assert_ne!(pass.report_lookup(r), LookupDecision::NeedsWrite);
    }
    let second = pass.summary();
    assert_eq!(second, Updates { updated: 0, current: 2, missing: 1 });
    assert_eq!(second.current, first.current + first.updated);
    assert_eq!(second.missing, first.missing);
}

#[test]
fn success_tokens_are_recognized() {
    assert!(ddns_body_ok("good 2.2.2.2"));
    assert!(ddns_body_ok("nochg 2.2.2.2"));
    assert!(!ddns_body_ok("911"));
    assert!(good_body_ok("good 2.2.2.2"));
    assert!(!good_body_ok("nochg 2.2.2.2"));
    assert!(errcount_body_ok("<x><ErrCount>0</ErrCount></x>"));
    assert!(!errcount_body_ok("<x><ErrCount>1</ErrCount></x>"));
}

#[test]
fn namecheap_form_fields() {
    let params = namecheap_params(
        &String::from("sub"),
        &String::from("example.com"),
        &String::from("secret-1"),
        &Ipv4Address { o0: 2, o1: 2, o2: 2, o3: 2 },
    );
    assert_eq!(
        params,
        vec![
            (String::from("host"), String::from("sub")),
            (String::from("domain"), String::from("example.com")),
            (String::from("password"), String::from("secret-1")),
            (String::from("ip"), String::from("2.2.2.2")),
        ]
    );
}

#[test]
fn he_and_noip_form_fields() {
    let he = he_params(
        &String::from("example.com"),
        &String::from("secret-1"),
        &String::from("2.2.2.2"),
    );
    assert_eq!(
        he,
        vec![
            (String::from("hostname"), String::from("example.com")),
            (String::from("password"), String::from("secret-1")),
            (String::from("myip"), String::from("2.2.2.2")),
        ]
    );
    let noip = noip_params(&String::from("example.com"), &String::from("2.2.2.2"));
    assert_eq!(
        noip,
        vec![
            (String::from("hostname"), String::from("example.com")),
            (String::from("myip"), String::from("2.2.2.2")),
        ]
    );
}

#[test]
fn dynu_form_fields_by_family_and_alias() {
    let root_v4 = dynu_params(
        &String::from("example.com"),
        &String::from("@"),
        IpType::V4,
        &String::from("2.2.2.2"),
    );
    assert_eq!(
        root_v4,
        vec![
            (String::from("hostname"), String::from("example.com")),
            (String::from("myip"), String::from("2.2.2.2")),
            (String::from("myipv6"), String::from("no")),
        ]
    );
    let alias_v6 = dynu_params(
        &String::from("example.com"),
        &String::from("sub"),
        IpType::V6,
        &String::from("2001:db8::1"),
    );
    assert_eq!(
        alias_v6,
        vec![
            (String::from("hostname"), String::from("example.com")),
            (String::from("myip"), String::from("no")),
            (String::from("myipv6"), String::from("2001:db8::1")),
            (String::from("alias"), String::from("sub")),
        ]
    );
}

#[test]
fn update_urls() {
    assert_eq!(
        namecheap_update_url(&String::from("https://dynamicdns.park-your-domain.com")),
        String::from("https://dynamicdns.park-your-domain.com/update")
    );
    assert_eq!(
        nic_update_url(&String::from("https://dyn.dns.he.net")),
        String::from("https://dyn.dns.he.net/nic/update")
    );
}
