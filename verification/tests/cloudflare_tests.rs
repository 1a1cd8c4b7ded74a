use dness::cloudflare::{
    credential_conflict, dns_records_url, empty_to_none, interpret_envelope, pagination_done,
    select_credential, single_zone_id, update_record_url, zones_url, ClErrorKind, CloudflareError,
    CloudflareResponse, CloudflareResultInfo, CloudflareZone, Credential,
};

fn info(page: i32, total_pages: i32) -> CloudflareResultInfo {
    CloudflareResultInfo { page, per_page: 20, total_pages, count: 1, total_count: 1 }
}

#[test]
fn error_envelope_carries_the_providers_errors() {
    let resp: CloudflareResponse<String> = CloudflareResponse {
        result: None,
        result_info: None,
        success: false,
        errors: vec![CloudflareError {
            code: 1003,
            message: String::from("Invalid or missing zone id."),
        }],
    };
    let err = interpret_envelope(resp, "zones").unwrap_err();
    match err.kind {
        ClErrorKind::ErrorResponse(action, errors) => {
            assert_eq!(action, "zones");
            assert_eq!(errors.len(), 1);
            assert_eq!(errors[0].code, 1003);
            assert_eq!(errors[0].message, String::from("Invalid or missing zone id."));
        }
        _ => panic!("expected an error response"),
    }
}

#[test]
fn success_without_payload_is_missing_result() {
    let resp: CloudflareResponse<String> = CloudflareResponse {
        result: None,
        result_info: None,
        success: true,
        errors: vec![],
    };
    let err = interpret_envelope(resp, "get records").unwrap_err();
    assert!(matches!(err.kind, ClErrorKind::MissingResult("get records")));
}

#[test]
fn success_with_payload_yields_it() {
    let resp: CloudflareResponse<Vec<i32>> = CloudflareResponse {
        result: Some(vec![1, 2, 3]),
        result_info: Some(info(1, 1)),
        success: true,
        errors: vec![],
    };
    let (payload, meta) = interpret_envelope(resp, "get records").unwrap();
    assert_eq!(payload, vec![1, 2, 3]);
    assert_eq!(meta.unwrap().total_pages, 1);
}

#[test]
fn exactly_one_zone_is_required() {
    let one = vec![CloudflareZone { id: String::from("aaaabbbb"), name: String::from("example.com") }];
    assert_eq!(single_zone_id(one).unwrap(), String::from("aaaabbbb"));

    let none: Vec<CloudflareZone> = vec![];
    let err = single_zone_id(none).unwrap_err();
    assert!(matches!(err.kind, ClErrorKind::UnexpectedNumberOfZones(0)));

    let two = vec![
        CloudflareZone { id: String::from("a"), name: String::from("x") },
        CloudflareZone { id: String::from("b"), name: String::from("y") },
    ];
    let err = single_zone_id(two).unwrap_err();
    assert!(matches!(err.kind, ClErrorKind::UnexpectedNumberOfZones(2)));
}

#[test]
fn pagination_stops_on_last_page_or_absent_metadata() {
    assert!(pagination_done(1, &Some(info(1, 1))));
    assert!(!pagination_done(1, &Some(info(1, 3))));
    assert!(pagination_done(3, &Some(info(3, 3))));
    assert!(pagination_done(1, &None));
}

#[test]
fn token_wins_over_email_and_key() {
    let r = select_credential(
        &Some(String::from("tok")),
        &Some(String::from("a@b.c")),
        &Some(String::from("k")),
    );
    assert!(matches!(r, Some(Credential::Bearer(t)) if t == "tok"));
    assert!(credential_conflict(
        &Some(String::from("tok")),
        &Some(String::from("a@b.c")),
        &Some(String::from("k")),
    ));
}

#[test]
fn email_and_key_serve_without_a_token() {
    let r = select_credential(&Some(String::from("")), &Some(String::from("a@b.c")), &Some(String::from("k")));
    assert!(matches!(r, Some(Credential::EmailKey(e, k)) if e == "a@b.c" && k == "k"));
    assert!(!credential_conflict(
        &Some(String::from("")),
        &Some(String::from("a@b.c")),
        &Some(String::from("k")),
    ));
}

#[test]
fn missing_credentials_are_rejected() {
    assert!(select_credential(&None, &None, &None).is_none());
    assert!(select_credential(&Some(String::from("")), &Some(String::from("a@b.c")), &None).is_none());
    assert!(select_credential(&None, &None, &Some(String::from("k"))).is_none());
}

#[test]
fn empty_strings_are_unconfigured() {
    assert_eq!(empty_to_none(&Some(String::from(""))), None);
    assert_eq!(empty_to_none(&None), None);
    assert_eq!(
        empty_to_none(&Some(String::from("x"))),
        Some(&String::from("x"))
    );
}

#[test]
fn endpoint_urls() {
    assert_eq!(
        zones_url(),
        String::from("https://api.cloudflare.com/client/v4/zones")
    );
    assert_eq!(
        dns_records_url(&String::from("aaaabbbb")),
        String::from("https://api.cloudflare.com/client/v4/zones/aaaabbbb/dns_records")
    );
    assert_eq!(
        update_record_url(&String::from("z"), &String::from("r")),
        String::from("https://api.cloudflare.com/client/v4/zones/z/dns_records/r")
    );
}
