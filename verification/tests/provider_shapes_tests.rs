use dness::errors::DnessError;
use dness::godaddy::{auth_header, records_url, update_record_url};
use dness::porkbun::{
    edit_url, filter_records_by_tag, porkbun_record_key, retrieve_url, strip_domain_from_name,
};
use dness::reconcile::RemoteRecord;
use dness::strutil::{contains_substring, dns_query_name, host_name, strip_suffix_repeated};

fn rec(name: &str, content: &str) -> RemoteRecord {
    RemoteRecord {
        name: String::from(name),
        id: String::from(name),
        content: String::from(content),
        extras: serde_json::Value::Null,
    }
}

#[test]
fn godaddy_request_shapes() {
    assert_eq!(
        auth_header(&String::from("key-1"), &String::from("secret-1")),
        String::from("sso-key key-1:secret-1")
    );
    assert_eq!(
        records_url(&String::from("http://x"), &String::from("domain-1.com")),
        String::from("http://x/v1/domains/domain-1.com/records/A")
    );
    assert_eq!(
        update_record_url(&String::from("http://x"), &String::from("domain-1.com"), &String::from("@")),
        String::from("http://x/v1/domains/domain-1.com/records/A/@")
    );
}

#[test]
fn porkbun_names_are_canonicalized() {
    let domain = String::from("example.com");
    assert_eq!(
        strip_domain_from_name(&String::from("sub.example.com"), &domain),
        String::from("sub")
    );
    assert_eq!(
        strip_domain_from_name(&String::from("example.com"), &domain),
        String::from("")
    );
    assert_eq!(porkbun_record_key(&String::from("@")), String::from(""));
    assert_eq!(porkbun_record_key(&String::from("sub")), String::from("sub"));
}

#[test]
fn porkbun_listing_is_narrowed_by_type() {
    let records = vec![
        rec("sub.example.com", "2.2.2.2"),
        rec("example.com", "2.2.2.2"),
        rec("example.com", "maceio.porkbun.com"),
    ];
    let tags = vec![String::from("A"), String::from("A"), String::from("NS")];
    let kept = filter_records_by_tag(&records, &tags, "A");
    assert_eq!(kept.len(), 2);
    assert_eq!(kept[0].name, String::from("sub.example.com"));
    assert_eq!(kept[1].name, String::from("example.com"));
}

#[test]
fn porkbun_endpoint_urls() {
    assert_eq!(
        retrieve_url(&String::from("http://x/api/json/v3"), &String::from("example.com")),
        String::from("http://x/api/json/v3/dns/retrieve/example.com")
    );
    assert_eq!(
        edit_url(
            &String::from("http://x/api/json/v3"),
            &String::from("example.com"),
            &String::from("356408594")
        ),
        String::from("http://x/api/json/v3/dns/edit/example.com/356408594")
    );
}

#[test]
fn hosts_and_queries_spell_the_root_specially() {
    let domain = String::from("example.com");
    assert_eq!(host_name(&String::from("@"), &domain), String::from("example.com"));
    assert_eq!(host_name(&String::from("sub"), &domain), String::from("sub.example.com"));
    assert_eq!(dns_query_name(&String::from("@"), &domain), String::from("example.com."));
    assert_eq!(
        dns_query_name(&String::from("sub"), &domain),
        String::from("sub.example.com.")
    );
}

#[test]
fn trailing_slashes_are_trimmed_repeatedly() {
    assert_eq!(
        strip_suffix_repeated("http://x//", "/"),
        String::from("http://x")
    );
    assert_eq!(strip_suffix_repeated("http://x", "/"), String::from("http://x"));
    assert_eq!(strip_suffix_repeated("", "/"), String::from(""));
}

#[test]
fn substring_search_is_exact() {
    assert!(contains_substring("abcdef", "cde"));
    assert!(contains_substring("abcdef", ""));
    assert!(contains_substring("abcdef", "abcdef"));
    assert!(!contains_substring("abcdef", "abcdefg"));
    assert!(!contains_substring("abcdef", "ace"));
}

#[test]
fn errors_render_with_their_context() {
    let e = DnessError::send_http(&String::from("http://x"), &String::from("godaddy fetch records"));
    assert_eq!(
        e.render(),
        String::from("unable to send http request for godaddy fetch records: url attempted: http://x")
    );
    let m = DnessError::message(String::from("expected zero errors, but received: 911"));
    assert_eq!(m.render(), String::from("expected zero errors, but received: 911"));
    let b = DnessError::bad_response(&String::from("http://x"), &String::from("noip update"));
    assert_eq!(
        b.render(),
        String::from("received bad http response for noip update: url attempted: http://x")
    );
    let d = DnessError::deserialize(&String::from("http://x"), &String::from("ipify get ip"));
    assert_eq!(
        d.render(),
        String::from("unable to deserialize response for ipify get ip: url attempted: http://x")
    );
}
