//! The decisions behind the paginated REST provider: which credential a
//! configuration denotes, what a response envelope means, when pagination
//! stops, and how a zone lookup's answer is read. The transport itself
//! lives outside; every response is interpreted here once it is plain
//! data.

use vstd::prelude::*;
use vstd::string::StringExecFns;

verus! {

/// One error entry of a provider error payload.
#[derive(Debug)]
pub struct CloudflareError {
    pub code: i32,
    pub message: String,
}

/// The pagination metadata of a listing response.
#[derive(Debug, Clone, Copy)]
pub struct CloudflareResultInfo {
    pub page: i32,
    pub per_page: i32,
    pub total_pages: i32,
    pub count: i32,
    pub total_count: i32,
}

/// The response envelope every operation of this provider returns.
#[derive(Debug)]
pub struct CloudflareResponse<T> {
    pub result: Option<T>,
    pub result_info: Option<CloudflareResultInfo>,
    pub success: bool,
    pub errors: Vec<CloudflareError>,
}

/// One zone as the zone lookup reports it.
#[derive(Debug)]
pub struct CloudflareZone {
    pub id: String,
    pub name: String,
}

/// Why an operation against this provider failed. The send and decode
/// variants carry the transport's own diagnostic line.
#[derive(Debug)]
pub enum ClErrorKind {
    SendHttp(&'static str, String),
    DecodeHttp(&'static str, String),
    ErrorResponse(&'static str, Vec<CloudflareError>),
    MissingResult(&'static str),
    UnexpectedNumberOfZones(usize),
}

/// A failure of one operation against this provider.
#[derive(Debug)]
pub struct ClError {
    pub kind: ClErrorKind,
}

/// How an adapter authenticates: a bearer token, or the legacy pair of
/// account email and key.
#[derive(Debug)]
pub enum Credential {
    Bearer(String),
    EmailKey(String, String),
}

/// A configured string that is absent when empty.
pub fn empty_to_none(s: &Option<String>) -> (r: Option<&String>)
    ensures
        match r {
            Some(x) => *s == Some(*x) && x@.len() > 0,
            None => s is None || (s matches Some(v) && v@.len() == 0),
        },
{
    match s {
        Some(x) => {
            if x.as_str().is_empty() {
                None
            } else {
                Some(x)
            }
        },
        None => None,
    }
}

/// Whether a configured string is present and non-empty.
pub open spec fn configured(s: Option<String>) -> bool {
    s matches Some(v) && v@.len() > 0
}

/// The credential a configuration denotes: a non-empty token wins over the
/// email and key pair; a configuration with neither denotes no credential
/// and is rejected before any adapter is built.
pub fn select_credential(
    token: &Option<String>,
    email: &Option<String>,
    key: &Option<String>,
) -> (r: Option<Credential>)
    ensures
        configured(*token) ==> (r matches Some(c) && (c matches Credential::Bearer(t) && Some(t)
            == *token)),
        !configured(*token) && configured(*email) && configured(*key) ==> (r matches Some(c) && (
        c matches Credential::EmailKey(e, k) && Some(e) == *email && Some(k) == *key)),
        !configured(*token) && !(configured(*email) && configured(*key)) ==> r is None,
{
    let token = empty_to_none(token);
    let email = empty_to_none(email);
    let key = empty_to_none(key);
    if let Some(t) = token {
        Some(Credential::Bearer(t.clone()))
    } else if let (Some(e), Some(k)) = (email, key) {
        Some(Credential::EmailKey(e.clone(), k.clone()))
    } else {
        None
    }
}

/// Whether both credential forms are configured, in which case the ignored
/// pair deserves a warning.
pub fn credential_conflict(
    token: &Option<String>,
    email: &Option<String>,
    key: &Option<String>,
) -> (r: bool)
    ensures
        r == (configured(*token) && (configured(*email) || configured(*key))),
{
    let token = empty_to_none(token);
    let email = empty_to_none(email);
    let key = empty_to_none(key);
    token.is_some() && (email.is_some() || key.is_some())
}

/// Reads a response envelope: an unsuccessful envelope fails with the
/// provider's own errors, a successful one without a payload fails as
/// missing its result, and otherwise the payload and the pagination
/// metadata come out.
pub fn interpret_envelope<T>(resp: CloudflareResponse<T>, action: &'static str) -> (r: Result<
    (T, Option<CloudflareResultInfo>),
    ClError,
>)
    ensures
        !resp.success ==> r == Err::<(T, Option<CloudflareResultInfo>), ClError>(
            ClError { kind: ClErrorKind::ErrorResponse(action, resp.errors) },
        ),
        resp.success && resp.result is None ==> r == Err::<
            (T, Option<CloudflareResultInfo>),
            ClError,
        >(ClError { kind: ClErrorKind::MissingResult(action) }),
        resp.success && resp.result is Some ==> r == Ok::<
            (T, Option<CloudflareResultInfo>),
            ClError,
        >((resp.result.unwrap(), resp.result_info)),
{
    if !resp.success {
        Err(ClError { kind: ClErrorKind::ErrorResponse(action, resp.errors) })
    } else {
        match resp.result {
            Some(v) => Ok((v, resp.result_info)),
            None => Err(ClError { kind: ClErrorKind::MissingResult(action) }),
        }
    }
}

/// Reads a zone lookup's answer: anything but exactly one zone is an
/// error; one zone yields its id.
pub fn single_zone_id(mut zones: Vec<CloudflareZone>) -> (r: Result<String, ClError>)
    ensures
        zones@.len() == 1 ==> r == Ok::<String, ClError>(zones@[0].id),
        zones@.len() != 1 ==> r == Err::<String, ClError>(
            ClError { kind: ClErrorKind::UnexpectedNumberOfZones(zones@.len() as usize) },
        ),
{
    let n = zones.len();
    if n == 1 {
        let z = zones.pop().unwrap();
        Ok(z.id)
    } else {
        Err(ClError { kind: ClErrorKind::UnexpectedNumberOfZones(n) })
    }
}

/// Whether the page just received is the last one to fetch: the metadata
/// says so, or there is no metadata, in which case the pass stops rather
/// than loop forever (the caller logs a warning).
pub fn pagination_done(page: i32, info: &Option<CloudflareResultInfo>) -> (r: bool)
    ensures
        r == match *info {
            Some(fo) => fo.total_pages <= page,
            None => true,
        },
{
    match info {
        Some(fo) => fo.total_pages <= page,
        None => true,
    }
}

/// The fixed endpoint that translates a zone name to its id.
pub fn zones_url() -> (r: String)
    ensures
        r@ == "https://api.cloudflare.com/client/v4/zones"@,
{
    String::from_str("https://api.cloudflare.com/client/v4/zones")
}

/// The endpoint that lists a zone's records, by zone id.
pub fn dns_records_url(zone_id: &String) -> (r: String)
    ensures
        r@ == "https://api.cloudflare.com/client/v4/zones/"@ + zone_id@ + "/dns_records"@,
{
    let mut s = String::from_str("https://api.cloudflare.com/client/v4/zones/");
    s.append(zone_id.as_str());
    s.append("/dns_records");
    s
}

/// The endpoint that rewrites one record, by zone and record id.
pub fn update_record_url(zone_id: &String, record_id: &String) -> (r: String)
    ensures
        r@ == "https://api.cloudflare.com/client/v4/zones/"@ + zone_id@ + "/dns_records/"@
            + record_id@,
{
    let mut s = String::from_str("https://api.cloudflare.com/client/v4/zones/");
    s.append(zone_id.as_str());
    s.append("/dns_records/");
    s.append(record_id.as_str());
    s
}

} // verus!
