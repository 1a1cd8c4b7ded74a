//! What the operator configures: one binding per domain naming a provider,
//! its credentials and endpoint, the records to keep in sync, and the IP
//! families the binding applies to; plus the resolver backend the run uses
//! to learn its own address.

use crate::addr::IpType;
use crate::strutil::eq_ignore_ascii_case;
use crate::strutil::eq_ignore_ascii_case_text;
use vstd::prelude::*;
use vstd::string::StringExecFns;

verus! {

/// How verbose the run's diagnostics are.
#[derive(Clone, Copy, Debug, PartialEq, Eq, Structural)]
pub enum LogLevel {
    Off,
    Error,
    Warn,
    Info,
    Debug,
    Trace,
}

/// The diagnostics configuration.
#[derive(Clone, Copy, Debug, PartialEq, Eq, Structural)]
pub struct LogConfig {
    pub level: LogLevel,
}

/// The run configuration: the resolver backend to learn the WAN address
/// from, the diagnostics level, and one binding per domain.
pub struct DnsConfig {
    pub ip_resolver: String,
    pub log: LogConfig,
    pub domains: Vec<DomainConfig>,
}

/// A binding against the token-or-email-key paginated REST provider.
pub struct CloudflareConfig {
    pub email: Option<String>,
    pub key: Option<String>,
    pub token: Option<String>,
    pub zone: String,
    pub records: Vec<String>,
    pub ip_types: Vec<IpType>,
}

/// A binding against the key-and-secret REST provider.
pub struct GoDaddyConfig {
    pub base_url: String,
    pub key: String,
    pub secret: String,
    pub domain: String,
    pub records: Vec<String>,
}

/// A binding against the password-keyed form-update provider.
pub struct NamecheapConfig {
    pub base_url: String,
    pub domain: String,
    pub ddns_password: String,
    pub records: Vec<String>,
}

/// A binding against the hostname-and-password form-update provider.
pub struct HeConfig {
    pub base_url: String,
    pub hostname: String,
    pub password: String,
    pub records: Vec<String>,
    pub ip_types: Vec<IpType>,
}

/// A binding against the single-hostname form-update provider.
pub struct NoIpConfig {
    pub base_url: String,
    pub username: String,
    pub password: String,
    pub hostname: String,
    pub ip_types: Vec<IpType>,
}

/// A binding against the alias-capable form-update provider.
pub struct DynuConfig {
    pub base_url: String,
    pub hostname: String,
    pub username: String,
    pub password: String,
    pub records: Vec<String>,
    pub ip_types: Vec<IpType>,
}

/// A binding against the key-and-secret JSON provider that spells the root
/// record as an empty string.
pub struct PorkbunConfig {
    pub base_url: String,
    pub domain: String,
    pub key: String,
    pub secret: String,
    pub records: Vec<String>,
    pub ip_types: Vec<IpType>,
}

/// One configured domain binding, tagged by its provider.
pub enum DomainConfig {
    Cloudflare(CloudflareConfig),
    GoDaddy(GoDaddyConfig),
    Namecheap(NamecheapConfig),
    He(HeConfig),
    NoIp(NoIpConfig),
    Dynu(DynuConfig),
    Porkbun(PorkbunConfig),
}

/// Clones a list of families.
fn clone_ip_types(v: &Vec<IpType>) -> (r: Vec<IpType>)
    ensures
        r@ == v@,
{
    let mut r: Vec<IpType> = Vec::new();
    let mut i: usize = 0;
    while i < v.len()
        invariant
            0 <= i <= v@.len(),
            r@ == v@.take(i as int),
        decreases v@.len() - i,
    {
        r.push(v[i]);
        proof {
            assert(r@ =~= v@.take(i + 1 as int));
        }
        i = i + 1;
    }
    proof {
        assert(v@.take(v@.len() as int) =~= v@);
    }
    r
}

impl DomainConfig {
    /// The zone or hostname this binding manages.
    pub open spec fn spec_zone_text(&self) -> Seq<char> {
        match *self {
            DomainConfig::Cloudflare(ref c) => c.zone@,
            DomainConfig::GoDaddy(ref c) => c.domain@,
            DomainConfig::Namecheap(ref c) => c.domain@,
            DomainConfig::He(ref c) => c.hostname@,
            DomainConfig::NoIp(ref c) => c.hostname@,
            DomainConfig::Dynu(ref c) => c.hostname@,
            DomainConfig::Porkbun(ref c) => c.domain@,
        }
    }

    /// The suffix naming this binding's provider in diagnostics.
    pub open spec fn spec_provider_suffix(&self) -> Seq<char> {
        match *self {
            DomainConfig::Cloudflare(_) => " (cloudflare)"@,
            DomainConfig::GoDaddy(_) => " (godaddy)"@,
            DomainConfig::Namecheap(_) => " (namecheap)"@,
            DomainConfig::He(_) => " (he)"@,
            DomainConfig::NoIp(_) => " (noip)"@,
            DomainConfig::Dynu(_) => " (dynu)"@,
            DomainConfig::Porkbun(_) => " (porkbun)"@,
        }
    }

    /// The name this binding goes by in diagnostics: its zone and its
    /// provider.
    pub fn display_name(&self) -> (r: String)
        ensures
            r@ == self.spec_zone_text() + self.spec_provider_suffix(),
    {
        match self {
            DomainConfig::Cloudflare(c) => {
                let mut s = c.zone.clone();
                s.append(" (cloudflare)");
                s
            },
            DomainConfig::GoDaddy(c) => {
                let mut s = c.domain.clone();
                s.append(" (godaddy)");
                s
            },
            DomainConfig::Namecheap(c) => {
                let mut s = c.domain.clone();
                s.append(" (namecheap)");
                s
            },
            DomainConfig::He(c) => {
                let mut s = c.hostname.clone();
                s.append(" (he)");
                s
            },
            DomainConfig::NoIp(c) => {
                let mut s = c.hostname.clone();
                s.append(" (noip)");
                s
            },
            DomainConfig::Dynu(c) => {
                let mut s = c.hostname.clone();
                s.append(" (dynu)");
                s
            },
            DomainConfig::Porkbun(c) => {
                let mut s = c.domain.clone();
                s.append(" (porkbun)");
                s
            },
        }
    }

    /// The families this binding applies to: what it declares, or
    /// version 4 alone for the providers that declare nothing.
    pub open spec fn spec_ip_types(&self) -> Seq<IpType> {
        match *self {
            DomainConfig::Cloudflare(ref c) => c.ip_types@,
            DomainConfig::GoDaddy(_) => seq![IpType::V4],
            DomainConfig::Namecheap(_) => seq![IpType::V4],
            DomainConfig::He(ref c) => c.ip_types@,
            DomainConfig::NoIp(ref c) => c.ip_types@,
            DomainConfig::Dynu(ref c) => c.ip_types@,
            DomainConfig::Porkbun(ref c) => c.ip_types@,
        }
    }

    /// The families this binding applies to.
    pub fn get_ip_types(&self) -> (r: Vec<IpType>)
        ensures
            r@ == self.spec_ip_types(),
    {
        match self {
            DomainConfig::Cloudflare(c) => clone_ip_types(&c.ip_types),
            DomainConfig::GoDaddy(_) => {
                let mut r: Vec<IpType> = Vec::new();
                r.push(IpType::V4);
                proof {
                    assert(r@ =~= seq![IpType::V4]);
                }
                r
            },
            DomainConfig::Namecheap(_) => {
                let mut r: Vec<IpType> = Vec::new();
                r.push(IpType::V4);
                proof {
                    assert(r@ =~= seq![IpType::V4]);
                }
                r
            },
            DomainConfig::He(c) => clone_ip_types(&c.ip_types),
            DomainConfig::NoIp(c) => clone_ip_types(&c.ip_types),
            DomainConfig::Dynu(c) => clone_ip_types(&c.ip_types),
            DomainConfig::Porkbun(c) => clone_ip_types(&c.ip_types),
        }
    }
}

/// The resolver backend used when the configuration names none.
pub fn default_resolver() -> (r: String)
    ensures
        r@ == "opendns"@,
{
    String::from_str("opendns")
}

/// The diagnostics level used when the configuration names none.
pub fn default_log_level() -> (r: LogLevel)
    ensures
        r == LogLevel::Info,
{
    LogLevel::Info
}

/// The family list a binding gets when it declares none.
pub fn ipv4_only() -> (r: Vec<IpType>)
    ensures
        r@ == seq![IpType::V4],
{
    let mut r: Vec<IpType> = Vec::new();
    r.push(IpType::V4);
    proof {
        assert(r@ =~= seq![IpType::V4]);
    }
    r
}

impl Default for LogConfig {
    /// The default diagnostics configuration.
    fn default() -> (r: LogConfig)
        ensures
            r.level == LogLevel::Info,
    {
        LogConfig { level: LogLevel::Info }
    }
}

impl Default for DnsConfig {
    /// The default run configuration: the default resolver, the default
    /// diagnostics level, and no domains.
    fn default() -> (r: DnsConfig)
        ensures
            r.ip_resolver@ == "opendns"@,
            r.log.level == LogLevel::Info,
            r.domains@.len() == 0,
    {
        DnsConfig {
            ip_resolver: default_resolver(),
            log: LogConfig { level: LogLevel::Info },
            domains: Vec::new(),
        }
    }
}

/// The base endpoint used when a binding of that provider names none.
pub fn godaddy_base_url() -> (r: String)
    ensures
        r@ == "https://api.godaddy.com"@,
{
    String::from_str("https://api.godaddy.com")
}

/// The base endpoint used when a binding of that provider names none.
pub fn namecheap_base_url() -> (r: String)
    ensures
        r@ == "https://dynamicdns.park-your-domain.com"@,
{
    String::from_str("https://dynamicdns.park-your-domain.com")
}

/// The base endpoint used when a binding of that provider names none.
pub fn he_base_url() -> (r: String)
    ensures
        r@ == "https://dyn.dns.he.net"@,
{
    String::from_str("https://dyn.dns.he.net")
}

/// The base endpoint used when a binding of that provider names none.
pub fn noip_base_url() -> (r: String)
    ensures
        r@ == "https://dynupdate.no-ip.com"@,
{
    String::from_str("https://dynupdate.no-ip.com")
}

/// The base endpoint used when a binding of that provider names none.
pub fn dynu_base_url() -> (r: String)
    ensures
        r@ == "https://api.dynu.com"@,
{
    String::from_str("https://api.dynu.com")
}

/// The base endpoint used when a binding of that provider names none.
pub fn porkbun_base_url() -> (r: String)
    ensures
        r@ == "https://api.porkbun.com/api/json/v3"@,
{
    String::from_str("https://api.porkbun.com/api/json/v3")
}

/// A recognized WAN-address resolver backend.
#[derive(Clone, Copy, Debug, PartialEq, Eq, Structural)]
pub enum ResolverKind {
    /// The special-query DNS lookup against a fixed recursive resolver.
    OpenDns,
    /// The HTTP echo service.
    Ipify,
}

/// The backend a configured selector names, compared without regard to
/// ASCII case; an unrecognized selector names none and is a fatal
/// configuration error.
pub fn parse_resolver_kind(name: &String) -> (r: Option<ResolverKind>)
    ensures
        eq_ignore_ascii_case_text(name@, "opendns"@) ==> r == Some(ResolverKind::OpenDns),
        !eq_ignore_ascii_case_text(name@, "opendns"@) && eq_ignore_ascii_case_text(
            name@,
            "ipify"@,
        ) ==> r == Some(ResolverKind::Ipify),
        !eq_ignore_ascii_case_text(name@, "opendns"@) && !eq_ignore_ascii_case_text(
            name@,
            "ipify"@,
        ) ==> r is None,
{
    if eq_ignore_ascii_case(name.as_str(), "opendns") {
        Some(ResolverKind::OpenDns)
    } else if eq_ignore_ascii_case(name.as_str(), "ipify") {
        Some(ResolverKind::Ipify)
    } else {
        None
    }
}

} // verus!
