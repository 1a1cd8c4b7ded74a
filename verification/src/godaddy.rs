//! The request shapes of the key-and-secret REST provider: its
//! authorization header and the endpoints that list a domain's address
//! records and rewrite one of them.

use vstd::prelude::*;
use vstd::string::StringExecFns;

verus! {

/// The authorization header value: the key and secret under the provider's
/// own scheme.
pub fn auth_header(key: &String, secret: &String) -> (r: String)
    ensures
        r@ == "sso-key "@ + key@ + ":"@ + secret@,
{
    let mut s = String::from_str("sso-key ");
    s.append(key.as_str());
    s.append(":");
    s.append(secret.as_str());
    s
}

/// The endpoint that lists a domain's address records.
pub fn records_url(base: &String, domain: &String) -> (r: String)
    ensures
        r@ == base@ + "/v1/domains/"@ + domain@ + "/records/A"@,
{
    let mut s = base.clone();
    s.append("/v1/domains/");
    s.append(domain.as_str());
    s.append("/records/A");
    s
}

/// The endpoint that rewrites one address record by name.
pub fn update_record_url(base: &String, domain: &String, name: &String) -> (r: String)
    ensures
        r@ == base@ + "/v1/domains/"@ + domain@ + "/records/A/"@ + name@,
{
    let mut s = base.clone();
    s.append("/v1/domains/");
    s.append(domain.as_str());
    s.append("/records/A/");
    s.append(name.as_str());
    s
}

} // verus!
