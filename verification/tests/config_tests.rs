use dness::addr::IpType;
use dness::config::{
    default_log_level, default_resolver, dynu_base_url, godaddy_base_url, he_base_url, ipv4_only,
    namecheap_base_url, noip_base_url, parse_resolver_kind, porkbun_base_url, CloudflareConfig,
    DnsConfig, DomainConfig, GoDaddyConfig, HeConfig, LogLevel, NamecheapConfig, ResolverKind,
};

fn cloudflare(zone: &str, ip_types: Vec<IpType>) -> DomainConfig {
    DomainConfig::Cloudflare(CloudflareConfig {
        email: None,
        key: None,
        token: Some(String::from("dec0de")),
        zone: String::from(zone),
        records: vec![String::from("n.example.com")],
        ip_types,
    })
}

#[test]
fn display_names_carry_the_provider() {
    let c = cloudflare("example.com", vec![IpType::V4]);
    assert_eq!(c.display_name(), String::from("example.com (cloudflare)"));
    let g = DomainConfig::GoDaddy(GoDaddyConfig {
        base_url: godaddy_base_url(),
        key: String::from("k"),
        secret: String::from("s"),
        domain: String::from("example.com"),
        records: vec![String::from("@")],
    });
    assert_eq!(g.display_name(), String::from("example.com (godaddy)"));
    let h = DomainConfig::He(HeConfig {
        base_url: he_base_url(),
        hostname: String::from("test-dness-1.xyz"),
        password: String::from("super_secret_password"),
        records: vec![String::from("@"), String::from("sub")],
        ip_types: vec![IpType::V4],
    });
    assert_eq!(h.display_name(), String::from("test-dness-1.xyz (he)"));
}

#[test]
fn families_default_to_v4_where_none_are_declared() {
    let g = DomainConfig::GoDaddy(GoDaddyConfig {
        base_url: godaddy_base_url(),
        key: String::from("k"),
        secret: String::from("s"),
        domain: String::from("example.com"),
        records: vec![String::from("@")],
    });
    assert_eq!(g.get_ip_types(), vec![IpType::V4]);
    let n = DomainConfig::Namecheap(NamecheapConfig {
        base_url: namecheap_base_url(),
        domain: String::from("example.com"),
        ddns_password: String::from("p"),
        records: vec![String::from("@")],
    });
    assert_eq!(n.get_ip_types(), vec![IpType::V4]);
    let c = cloudflare("example.com", vec![IpType::V4, IpType::V6]);
    assert_eq!(c.get_ip_types(), vec![IpType::V4, IpType::V6]);
    let c6 = cloudflare("example.com", vec![IpType::V6]);
    assert_eq!(c6.get_ip_types(), vec![IpType::V6]);
}

#[test]
fn defaults_match_the_documented_values() {
    assert_eq!(default_resolver(), String::from("opendns"));
    assert_eq!(default_log_level(), LogLevel::Info);
    assert_eq!(ipv4_only(), vec![IpType::V4]);
    let config = DnsConfig::default();
    assert_eq!(config.ip_resolver, String::from("opendns"));
    assert_eq!(config.log.level, LogLevel::Info);
    assert!(config.domains.is_empty());
}

#[test]
fn base_urls_match_the_documented_endpoints() {
    assert_eq!(godaddy_base_url(), String::from("https://api.godaddy.com"));
    assert_eq!(
        namecheap_base_url(),
        String::from("https://dynamicdns.park-your-domain.com")
    );
    assert_eq!(he_base_url(), String::from("https://dyn.dns.he.net"));
    assert_eq!(noip_base_url(), String::from("https://dynupdate.no-ip.com"));
    assert_eq!(dynu_base_url(), String::from("https://api.dynu.com"));
    assert_eq!(
        porkbun_base_url(),
        String::from("https://api.porkbun.com/api/json/v3")
    );
}

#[test]
fn resolver_selector_is_case_insensitive_and_closed() {
    assert_eq!(
        parse_resolver_kind(&String::from("opendns")),
        Some(ResolverKind::OpenDns)
    );
    assert_eq!(
        parse_resolver_kind(&String::from("OpenDNS")),
        Some(ResolverKind::OpenDns)
    );
    assert_eq!(
        parse_resolver_kind(&String::from("ipify")),
        Some(ResolverKind::Ipify)
    );
    assert_eq!(
        parse_resolver_kind(&String::from("IPIFY")),
        Some(ResolverKind::Ipify)
    );
    assert_eq!(parse_resolver_kind(&String::from("dnsomatic")), None);
    assert_eq!(parse_resolver_kind(&String::from("")), None);
}
