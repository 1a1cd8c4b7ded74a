//! The engine for providers without a listing endpoint. Each desired name
//! is read back through an outside DNS query; a name that resolves to the
//! target is current, one that resolves elsewhere is rewritten through the
//! provider's form endpoint, and one that fails to resolve is counted
//! missing and skipped — a lookup failure never aborts the pass.

use crate::addr::IpAddress;
use crate::addr::IpType;
use crate::addr::Ipv4Address;
use crate::addr::ipv4_text;
use crate::addr::ipv4_string;
use crate::strutil::has_substring;
use crate::strutil::contains_substring;
use crate::strutil::is_root_name;
use crate::summary::Updates;
use crate::summary::UpdatesView;
use vstd::prelude::*;
use vstd::string::StringExecFns;

verus! {

/// What one lookup result means for its record.
#[derive(Clone, Copy, Debug, PartialEq, Eq, Structural)]
pub enum LookupDecision {
    /// The record already resolves to the target address.
    AlreadyCurrent,
    /// The record resolves elsewhere: the provider must be told to rewrite
    /// it.
    NeedsWrite,
    /// The lookup failed: the record is counted missing and skipped.
    Missing,
}

/// The decision for one lookup result against the target.
pub open spec fn decide_lookup(result: Option<IpAddress>, target: IpAddress) -> LookupDecision {
    match result {
        Some(a) => if a == target {
            LookupDecision::AlreadyCurrent
        } else {
            LookupDecision::NeedsWrite
        },
        None => LookupDecision::Missing,
    }
}

/// The summary of a sequence of lookup results against the target.
pub open spec fn lookup_counts(results: Seq<Option<IpAddress>>, target: IpAddress) -> UpdatesView
    decreases results.len(),
{
    if results.len() == 0 {
        UpdatesView::zero()
    } else {
        let prev = lookup_counts(results.drop_last(), target);
        match decide_lookup(results.last(), target) {
            LookupDecision::AlreadyCurrent => UpdatesView {
                updated: prev.updated,
                current: prev.current + 1,
                missing: prev.missing,
            },
            LookupDecision::NeedsWrite => UpdatesView {
                updated: prev.updated + 1,
                current: prev.current,
                missing: prev.missing,
            },
            LookupDecision::Missing => UpdatesView {
                updated: prev.updated,
                current: prev.current,
                missing: prev.missing + 1,
            },
        }
    }
}

/// Lookup counts never exceed the number of results.
proof fn lemma_lookup_counts_bounded(results: Seq<Option<IpAddress>>, target: IpAddress)
    ensures
        lookup_counts(results, target).wf(),
        lookup_counts(results, target).updated + lookup_counts(results, target).current
            + lookup_counts(results, target).missing == results.len(),
    decreases results.len(),
{
    if results.len() > 0 {
        lemma_lookup_counts_bounded(results.drop_last(), target);
    }
}

/// A second lookup pass over what the first one left behind rewrites
/// nothing: a record the first pass wrote now reads back as the target, so
/// the second pass counts it current; a record that failed to resolve
/// still counts missing.
pub proof fn lemma_lookup_second_pass(
    results: Seq<Option<IpAddress>>,
    results2: Seq<Option<IpAddress>>,
    target: IpAddress,
)
    requires
        results2.len() == results.len(),
        forall|i: int|
            0 <= i < results.len() ==> results2[i] == (if results[i] is Some && results[i] != Some(
                target,
            ) {
                Some(target)
            } else {
                results[i]
            }),
    ensures
        lookup_counts(results2, target).updated == 0,
        lookup_counts(results2, target).current == lookup_counts(results, target).current
            + lookup_counts(results, target).updated,
        lookup_counts(results2, target).missing == lookup_counts(results, target).missing,
    decreases results.len(),
{
    if results.len() > 0 {
        lemma_lookup_second_pass(results.drop_last(), results2.drop_last(), target);
        assert(results2.drop_last().len() == results.drop_last().len());
        assert(results2.last() == (if results.last() is Some && results.last() != Some(target) {
            Some(target)
        } else {
            results.last()
        }));
    }
}

/// One lookup-based reconciliation pass in progress. Ask for the next
/// name, look it up outside, report what came back; perform the write when
/// told to, and confirm it before going on. A failed write abandons the
/// pass; a failed lookup does not.
pub struct LookupPass {
    names: Vec<String>,
    target: IpAddress,
    idx: usize,
    updated: i32,
    current: i32,
    missing: i32,
    pending: bool,
    results: Ghost<Seq<Option<IpAddress>>>,
}

impl LookupPass {
    /// The desired names, in configuration order.
    pub closed spec fn spec_names(self) -> Seq<String> {
        self.names@
    }

    /// The address the pass drives records toward.
    pub closed spec fn spec_target(self) -> IpAddress {
        self.target
    }

    /// The lookup results reported so far, in order.
    pub closed spec fn spec_results(self) -> Seq<Option<IpAddress>> {
        self.results@
    }

    /// Whether a requested write has not been confirmed yet.
    pub closed spec fn spec_pending(self) -> bool {
        self.pending
    }

    /// The pass bookkeeping is consistent: one result per examined name
    /// and counts folding the results reported so far.
    pub closed spec fn wf(self) -> bool {
        &&& self.names@.len() <= i32::MAX
        &&& self.idx <= self.names@.len()
        &&& self.results@.len() == self.idx
        &&& UpdatesView {
            updated: self.updated as int,
            current: self.current as int,
            missing: self.missing as int,
        } == lookup_counts(self.results@, self.target)
    }

    /// Begins a pass over the configured names toward the target address.
    pub fn new(names: Vec<String>, target: IpAddress) -> (r: LookupPass)
        requires
            names@.len() <= i32::MAX,
        ensures
            r.wf(),
            r.spec_names() == names@,
            r.spec_target() == target,
            r.spec_results() == Seq::<Option<IpAddress>>::empty(),
            !r.spec_pending(),
    {
        LookupPass {
            names,
            target,
            idx: 0,
            updated: 0,
            current: 0,
            missing: 0,
            pending: false,
            results: Ghost(Seq::empty()),
        }
    }

    /// The next name to look up, or nothing when every name was examined.
    pub fn next_name(&self) -> (r: Option<&String>)
        requires
            self.wf(),
            !self.spec_pending(),
        ensures
            match r {
                Some(n) => self.spec_results().len() < self.spec_names().len() && *n
                    == self.spec_names()[self.spec_results().len() as int],
                None => self.spec_results().len() == self.spec_names().len(),
            },
    {
        if self.idx < self.names.len() {
            Some(&self.names[self.idx])
        } else {
            None
        }
    }

    /// Accounts for what the lookup of the current name returned, and says
    /// what to do for it. After `NeedsWrite` the caller performs the write
    /// and confirms it; on a failed write it abandons the pass.
    pub fn report_lookup(&mut self, result: Option<IpAddress>) -> (d: LookupDecision)
        requires
            old(self).wf(),
            !old(self).spec_pending(),
            old(self).spec_results().len() < old(self).spec_names().len(),
        ensures
            final(self).wf(),
            final(self).spec_names() == old(self).spec_names(),
            final(self).spec_target() == old(self).spec_target(),
            final(self).spec_results() == old(self).spec_results().push(result),
            d == decide_lookup(result, old(self).spec_target()),
            final(self).spec_pending() == (d is NeedsWrite),
    {
        proof {
            lemma_lookup_counts_bounded(self.results@, self.target);
            assert(self.results@.push(result).drop_last() =~= self.results@);
        }
        self.idx = self.idx + 1;
        let d = match result {
            Some(a) => {
                if a == self.target {
                    self.current = self.current + 1;
                    LookupDecision::AlreadyCurrent
                } else {
                    self.updated = self.updated + 1;
                    self.pending = true;
                    LookupDecision::NeedsWrite
                }
            },
            None => {
                self.missing = self.missing + 1;
                LookupDecision::Missing
            },
        };
        proof {
            self.results@ = self.results@.push(result);
        }
        d
    }

    /// Confirms that the provider accepted the requested write.
    pub fn confirm_write(&mut self)
        requires
            old(self).wf(),
            old(self).spec_pending(),
        ensures
            final(self).wf(),
            final(self).spec_names() == old(self).spec_names(),
            final(self).spec_target() == old(self).spec_target(),
            final(self).spec_results() == old(self).spec_results(),
            !final(self).spec_pending(),
    {
        self.pending = false;
    }

    /// The summary of the finished pass.
    pub fn summary(&self) -> (u: Updates)
        requires
            self.wf(),
            !self.spec_pending(),
            self.spec_results().len() == self.spec_names().len(),
        ensures
            u@ == lookup_counts(self.spec_results(), self.spec_target()),
            u.wf(),
    {
        proof {
            lemma_lookup_counts_bounded(self.results@, self.target);
        }
        Updates { updated: self.updated, current: self.current, missing: self.missing }
    }
}

/// The one address a WAN lookup must return: anything but exactly one
/// answer is ambiguous and yields nothing, which the caller reports as a
/// resolution failure.
pub fn single_address(answers: &Vec<IpAddress>) -> (r: Option<IpAddress>)
    ensures
        answers@.len() == 1 ==> r == Some(answers@[0]),
        answers@.len() != 1 ==> r is None,
{
    if answers.len() == 1 {
        Some(answers[0])
    } else {
        None
    }
}

/// Whether a legacy dynamic-DNS response body reports success: it carries
/// "good" or "nochg".
pub fn ddns_body_ok(body: &str) -> (r: bool)
    ensures
        r == (has_substring(body@, "good"@) || has_substring(body@, "nochg"@)),
{
    contains_substring(body, "good") || contains_substring(body, "nochg")
}

/// Whether a response body reports success with "good" alone.
pub fn good_body_ok(body: &str) -> (r: bool)
    ensures
        r == has_substring(body@, "good"@),
{
    contains_substring(body, "good")
}

/// Whether an XML error-count response body reports zero errors.
pub fn errcount_body_ok(body: &str) -> (r: bool)
    ensures
        r == has_substring(body@, "<ErrCount>0</ErrCount>"@),
{
    contains_substring(body, "<ErrCount>0</ErrCount>")
}

/// The form fields of a version-4 record write for the form-update
/// endpoint keyed by host, domain and password.
pub fn namecheap_params(host: &String, domain: &String, password: &String, ip: &Ipv4Address) -> (r:
    Vec<(String, String)>)
    ensures
        r@.len() == 4,
        r@[0].0@ == "host"@ && r@[0].1@ == host@,
        r@[1].0@ == "domain"@ && r@[1].1@ == domain@,
        r@[2].0@ == "password"@ && r@[2].1@ == password@,
        r@[3].0@ == "ip"@ && r@[3].1@ == ipv4_text(*ip),
{
    let mut r: Vec<(String, String)> = Vec::new();
    r.push((String::from_str("host"), host.clone()));
    r.push((String::from_str("domain"), domain.clone()));
    r.push((String::from_str("password"), password.clone()));
    r.push((String::from_str("ip"), ipv4_string(ip)));
    r
}

/// The form fields of a record write for the form-update endpoint keyed by
/// hostname and password; the address text was formatted by the caller.
pub fn he_params(hostname: &String, password: &String, ip_text: &String) -> (r: Vec<
    (String, String),
>)
    ensures
        r@.len() == 3,
        r@[0].0@ == "hostname"@ && r@[0].1@ == hostname@,
        r@[1].0@ == "password"@ && r@[1].1@ == password@,
        r@[2].0@ == "myip"@ && r@[2].1@ == ip_text@,
{
    let mut r: Vec<(String, String)> = Vec::new();
    r.push((String::from_str("hostname"), hostname.clone()));
    r.push((String::from_str("password"), password.clone()));
    r.push((String::from_str("myip"), ip_text.clone()));
    r
}

/// The query fields of a record write for the endpoint that authenticates
/// through the request itself: hostname and address text only.
pub fn noip_params(hostname: &String, ip_text: &String) -> (r: Vec<(String, String)>)
    ensures
        r@.len() == 2,
        r@[0].0@ == "hostname"@ && r@[0].1@ == hostname@,
        r@[1].0@ == "myip"@ && r@[1].1@ == ip_text@,
{
    let mut r: Vec<(String, String)> = Vec::new();
    r.push((String::from_str("hostname"), hostname.clone()));
    r.push((String::from_str("myip"), ip_text.clone()));
    r
}

/// The query fields of a record write for the endpoint that takes one
/// address field per family, "no" for the family not being written, and an
/// alias only for a non-root record.
pub fn dynu_params(hostname: &String, host: &String, family: IpType, ip_text: &String) -> (r: Vec<
    (String, String),
>)
    ensures
        r@[0].0@ == "hostname"@ && r@[0].1@ == hostname@,
        r@[1].0@ == "myip"@,
        r@[2].0@ == "myipv6"@,
        family == IpType::V4 ==> r@[1].1@ == ip_text@ && r@[2].1@ == "no"@,
        family == IpType::V6 ==> r@[1].1@ == "no"@ && r@[2].1@ == ip_text@,
        host@ == "@"@ ==> r@.len() == 3,
        host@ != "@"@ ==> r@.len() == 4 && r@[3].0@ == "alias"@ && r@[3].1@ == host@,
{
    let mut r: Vec<(String, String)> = Vec::new();
    r.push((String::from_str("hostname"), hostname.clone()));
    match family {
        IpType::V4 => {
            r.push((String::from_str("myip"), ip_text.clone()));
            r.push((String::from_str("myipv6"), String::from_str("no")));
        },
        IpType::V6 => {
            r.push((String::from_str("myip"), String::from_str("no")));
            r.push((String::from_str("myipv6"), ip_text.clone()));
        },
    }
    if !is_root_name(host) {
        r.push((String::from_str("alias"), host.clone()));
    }
    r
}

/// The form-update endpoint of the password-keyed provider.
pub fn namecheap_update_url(base: &String) -> (r: String)
    ensures
        r@ == base@ + "/update"@,
{
    let mut s = base.clone();
    s.append("/update");
    s
}

/// The form-update endpoint the legacy dynamic-DNS providers share.
pub fn nic_update_url(base: &String) -> (r: String)
    ensures
        r@ == base@ + "/nic/update"@,
{
    let mut s = base.clone();
    s.append("/nic/update");
    s
}

} // verus!
