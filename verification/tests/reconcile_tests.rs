use dness::addr::{IpAddress, Ipv4Address, Ipv6Address};
use dness::reconcile::{
    clone_record, update_payload_v4, update_payload_v6, Reconciler, RemoteRecord,
};
use dness::summary::Updates;

fn v4(o0: u8, o1: u8, o2: u8, o3: u8) -> Ipv4Address {
    Ipv4Address { o0, o1, o2, o3 }
}

fn rec(name: &str, content: &str) -> RemoteRecord {
    RemoteRecord {
        name: String::from(name),
        id: String::from(name),
        content: String::from(content),
        extras: serde_json::Value::Null,
    }
}

fn run_v4_pass(desired: Vec<String>, remote: Vec<RemoteRecord>, target: Ipv4Address) -> Updates {
    let mut pass = Reconciler::new_v4(desired, remote, target);
    while let Some(_) = pass.next_update() {
        // every requested write is taken as accepted in these tests
    }
    pass.summary()
}

#[test]
fn unparsable_content_is_rewritten() {
    // one remote record whose content is not an address: the pass rewrites it
    let desired = vec![String::from("@")];
    let remote = vec![rec("@", "256.256.256.256")];
    let summary = run_v4_pass(desired, remote, v4(2, 2, 2, 2));
    assert_eq!(summary, Updates { updated: 1, current: 0, missing: 0 });
}

#[test]
fn mixed_listing_counts_each_record_once() {
    let desired = vec![String::from("@"), String::from("a"), String::from("b")];
    let remote = vec![rec("@", "2.2.2.2"), rec("a", "2.1.2.2")];
    let summary = run_v4_pass(desired, remote, v4(2, 2, 2, 2));
    assert_eq!(summary, Updates { updated: 1, current: 1, missing: 1 });
}

#[test]
fn stale_content_is_rewritten_for_any_target() {
    for target in [v4(2, 2, 2, 2), v4(9, 9, 9, 9), v4(0, 0, 0, 0)] {
        let desired = vec![String::from("@")];
        let remote = vec![rec("@", "certainly not an address")];
        let summary = run_v4_pass(desired, remote, target);
        assert_eq!(summary, Updates { updated: 1, current: 0, missing: 0 });
    }
}

#[test]
fn undesired_records_are_ignored() {
    let desired = vec![String::from("www")];
    let remote = vec![rec("mail", "1.2.3.4"), rec("www", "2.2.2.2")];
    let summary = run_v4_pass(desired, remote, v4(2, 2, 2, 2));
    assert_eq!(summary, Updates { updated: 0, current: 1, missing: 0 });
}

#[test]
fn second_pass_after_rewrites_is_all_current() {
    let target = v4(2, 2, 2, 2);
    let desired = vec![String::from("@"), String::from("a"), String::from("b")];
    let remote = vec![rec("@", "2.2.2.2"), rec("a", "2.1.2.2"), rec("b", "junk")];

    // first pass: apply each requested write to a copy of the remote state
    let mut state: Vec<RemoteRecord> = remote.iter().map(clone_record).collect();
    let mut pass = Reconciler::new_v4(desired.clone(), remote, target);
    while let Some(i) = pass.next_update() {
        let payload = update_payload_v4(pass.record(i), &target);
        state[i].content = payload.content;
    }
    let first = pass.summary();
    assert_eq!(first, Updates { updated: 2, current: 1, missing: 0 });

    // second pass against the rewritten state: nothing left to update
    let mut second_pass = Reconciler::new_v4(desired, state, target);
    assert_eq!(second_pass.next_update(), None);
    let second = second_pass.summary();
    assert_eq!(second, Updates { updated: 0, current: 3, missing: 0 });
    assert_eq!(second.current, first.current + first.updated);
    assert_eq!(second.missing, first.missing);
}

#[test]
fn update_payload_preserves_unknown_fields() {
    let mut extras = serde_json::Map::new();
    extras.insert(String::from("ttl"), serde_json::Value::from(600));
    extras.insert(
        String::from("type"),
        serde_json::Value::String(String::from("A")),
    );
    let record = RemoteRecord {
        name: String::from("@"),
        id: String::from("id-1"),
        content: String::from("256.256.256.256"),
        extras: serde_json::Value::Object(extras.clone()),
    };
    let payload = update_payload_v4(&record, &v4(2, 2, 2, 2));
    assert_eq!(payload.name, String::from("@"));
    assert_eq!(payload.id, String::from("id-1"));
    assert_eq!(payload.content, String::from("2.2.2.2"));
    assert_eq!(payload.extras, serde_json::Value::Object(extras));
}

#[test]
fn update_payload_v6_formats_the_target() {
    let record = rec("a", "whatever");
    let six = Ipv6Address { s0: 0x2001, s1: 0xdb8, s2: 0, s3: 0, s4: 0, s5: 0, s6: 0, s7: 1 };
    let payload = update_payload_v6(&record, &six);
    assert_eq!(payload.content, String::from("2001:db8:0:0:0:0:0:1"));
    assert_eq!(payload.name, String::from("a"));
    assert_eq!(payload.extras, serde_json::Value::Null);
}

#[test]
fn general_pass_takes_supplied_parses() {
    // a version-6 pass: the parse of each content is supplied
    let six = Ipv6Address { s0: 0x2001, s1: 0xdb8, s2: 0, s3: 0, s4: 0, s5: 0, s6: 0, s7: 1 };
    let target = IpAddress::V6(six);
    let desired = vec![String::from("@"), String::from("sub")];
    let remote = vec![rec("@", "2001:db8::1"), rec("sub", "2001:db8::2")];
    let parsed = vec![Some(target), None];
    let mut pass = Reconciler::from_parsed(desired, remote, parsed, target);
    assert_eq!(pass.next_update(), Some(1));
    assert_eq!(pass.next_update(), None);
    assert_eq!(pass.summary(), Updates { updated: 1, current: 1, missing: 0 });
}
