use dness::addr::IpType;
use dness::config::{CloudflareConfig, DomainConfig, GoDaddyConfig};
use dness::orchestrator::{needed_families, plan_jobs, RunTotals};
use dness::summary::Updates;

fn cloudflare(zone: &str, ip_types: Vec<IpType>) -> DomainConfig {
    DomainConfig::Cloudflare(CloudflareConfig {
        email: None,
        key: None,
        token: Some(String::from("t")),
        zone: String::from(zone),
        records: vec![String::from("@")],
        ip_types,
    })
}

fn godaddy(domain: &str) -> DomainConfig {
    DomainConfig::GoDaddy(GoDaddyConfig {
        base_url: String::from("https://api.godaddy.com"),
        key: String::from("k"),
        secret: String::from("s"),
        domain: String::from(domain),
        records: vec![String::from("@")],
    })
}

#[test]
fn no_domains_still_resolves_both_families() {
    let domains: Vec<DomainConfig> = Vec::new();
    assert_eq!(needed_families(&domains), vec![IpType::V4, IpType::V6]);
}

#[test]
fn needed_families_are_the_declared_union() {
    let v4_only = vec![godaddy("a.com")];
    assert_eq!(needed_families(&v4_only), vec![IpType::V4]);
    let v6_only = vec![cloudflare("b.com", vec![IpType::V6])];
    assert_eq!(needed_families(&v6_only), vec![IpType::V6]);
    let mixed = vec![godaddy("a.com"), cloudflare("b.com", vec![IpType::V6])];
    assert_eq!(needed_families(&mixed), vec![IpType::V4, IpType::V6]);
}

#[test]
fn jobs_follow_configuration_order() {
    let domains = vec![
        cloudflare("a.com", vec![IpType::V4, IpType::V6]),
        godaddy("b.com"),
        cloudflare("c.com", vec![IpType::V6]),
    ];
    let resolved = vec![IpType::V4, IpType::V6];
    let jobs = plan_jobs(&domains, &resolved);
    assert_eq!(
        jobs,
        vec![
            (0, IpType::V4),
            (0, IpType::V6),
            (1, IpType::V4),
            (2, IpType::V6),
        ]
    );
}

#[test]
fn jobs_skip_unresolved_families() {
    let domains = vec![cloudflare("a.com", vec![IpType::V4, IpType::V6])];
    let resolved = vec![IpType::V4];
    assert_eq!(plan_jobs(&domains, &resolved), vec![(0, IpType::V4)]);
}

#[test]
fn totals_fold_the_summaries() {
    let mut totals = RunTotals::new();
    totals.absorb(Updates { updated: 1, current: 2, missing: 0 });
    totals.absorb(Updates { updated: 0, current: 1, missing: 3 });
    assert_eq!(totals.total(), Updates { updated: 1, current: 3, missing: 3 });
    assert!(!totals.failed());
}

#[test]
fn one_failure_sets_the_flag_and_spares_the_rest() {
    // first domain fails its listing; the later ones still contribute
    let mut with_failure = RunTotals::new();
    with_failure.record_failure();
    with_failure.absorb(Updates { updated: 1, current: 0, missing: 0 });
    with_failure.absorb(Updates { updated: 0, current: 2, missing: 1 });

    let mut without_failure = RunTotals::new();
    without_failure.absorb(Updates { updated: 1, current: 0, missing: 0 });
    without_failure.absorb(Updates { updated: 0, current: 2, missing: 1 });

    assert!(with_failure.failed());
    assert!(!without_failure.failed());
    assert_eq!(with_failure.total(), without_failure.total());
    assert_eq!(
        with_failure.total(),
        Updates { updated: 1, current: 2, missing: 1 }
    );
}

#[test]
fn can_absorb_guards_the_counters() {
    let mut totals = RunTotals::new();
    totals.absorb(Updates { updated: i32::MAX - 1, current: 0, missing: 0 });
    assert!(totals.can_absorb(&Updates { updated: 1, current: 0, missing: 0 }));
    assert!(!totals.can_absorb(&Updates { updated: 2, current: 0, missing: 0 }));
}
