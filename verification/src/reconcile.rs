//! The list/diff/update engine for providers that report their records in a
//! listing. Given the desired names, the fetched records and the target
//! address, the engine decides which records to rewrite and accounts for
//! the pass: a desired name absent from the listing is missing; a listed
//! record whose content parses to the target is current; every other listed
//! record of a desired name is rewritten, including one whose content does
//! not parse at all.

use crate::addr::IpAddress;
use crate::addr::Ipv4Address;
use crate::addr::Ipv6Address;
use crate::addr6::parse_ipv6_text;
use crate::addr6::parse_ipv6;
use crate::addr::ipv4_text;
use crate::addr::parse_ipv4_text;
use crate::addr::parse_ipv4;
use crate::addr::ipv4_string;
use crate::summary::Updates;
use crate::summary::UpdatesView;
use crate::summary::contains_str;
use crate::summary::distinct_names;
use crate::summary::missing_seq;
use crate::summary::missing_names;
use crate::summary::contains_name;
use vstd::prelude::*;

verus! {

/// One record as a provider reported it: its name, the provider's opaque
/// id for it, its stored content, and every provider-specific field that
/// must be written back unchanged.
pub struct RemoteRecord {
    pub name: String,
    pub id: String,
    pub content: String,
    pub extras: serde_json::Value,
}

/// The body of a single-record write: the fetched record's fields carried
/// over verbatim, with only the content replaced.
pub struct UpdatePayload {
    pub name: String,
    pub id: String,
    pub content: String,
    pub extras: serde_json::Value,
}

/// The names of a listing, in listing order.
pub open spec fn names_of(remote: Seq<RemoteRecord>) -> Seq<String> {
    remote.map_values(|r: RemoteRecord| r.name)
}

/// Whether a listed record bears one of the desired names.
pub open spec fn record_matched(desired: Seq<String>, r: RemoteRecord) -> bool {
    contains_str(desired, r.name@)
}

/// What a record's content denotes for a version-4 pass.
pub open spec fn parse_content_v4(s: Seq<char>) -> Option<IpAddress> {
    match parse_ipv4_text(s) {
        Some(a) => Some(IpAddress::V4(a)),
        None => None,
    }
}

/// What a record's content denotes for a version-6 pass.
pub open spec fn parse_content_v6(s: Seq<char>) -> Option<IpAddress> {
    match parse_ipv6_text(s) {
        Some(a) => Some(IpAddress::V6(a)),
        None => None,
    }
}

/// How many of the first `n` records are desired and already hold the
/// target address.
pub open spec fn current_upto(
    desired: Seq<String>,
    remote: Seq<RemoteRecord>,
    parsed: Seq<Option<IpAddress>>,
    target: IpAddress,
    n: int,
) -> int
    decreases n,
{
    if n <= 0 {
        0
    } else {
        current_upto(desired, remote, parsed, target, n - 1) + if record_matched(
            desired,
            remote[n - 1],
        ) && parsed[n - 1] == Some(target) {
            1int
        } else {
            0int
        }
    }
}

/// How many of the first `n` records are desired and must be rewritten:
/// their content parses to another address, or does not parse at all.
pub open spec fn updated_upto(
    desired: Seq<String>,
    remote: Seq<RemoteRecord>,
    parsed: Seq<Option<IpAddress>>,
    target: IpAddress,
    n: int,
) -> int
    decreases n,
{
    if n <= 0 {
        0
    } else {
        updated_upto(desired, remote, parsed, target, n - 1) + if record_matched(
            desired,
            remote[n - 1],
        ) && parsed[n - 1] != Some(target) {
            1int
        } else {
            0int
        }
    }
}

/// How many of the first `n` records bear a desired name.
pub open spec fn matched_upto(desired: Seq<String>, remote: Seq<RemoteRecord>, n: int) -> int
    decreases n,
{
    if n <= 0 {
        0
    } else {
        matched_upto(desired, remote, n - 1) + if record_matched(desired, remote[n - 1]) {
            1int
        } else {
            0int
        }
    }
}

/// How many listed records bear a desired name: the listing's side of the
/// intersection with the desired set.
pub open spec fn matched_count(desired: Seq<String>, remote: Seq<RemoteRecord>) -> int {
    matched_upto(desired, remote, remote.len() as int)
}

/// The indices of the first `n` records that need a write: desired records
/// whose content does not already denote the target, in listing order.
pub open spec fn pending_upto(
    desired: Seq<String>,
    remote: Seq<RemoteRecord>,
    parsed: Seq<Option<IpAddress>>,
    target: IpAddress,
    n: int,
) -> Seq<int>
    decreases n,
{
    if n <= 0 {
        Seq::empty()
    } else {
        let rest = pending_upto(desired, remote, parsed, target, n - 1);
        if record_matched(desired, remote[n - 1]) && parsed[n - 1] != Some(target) {
            rest.push(n - 1)
        } else {
            rest
        }
    }
}

/// The updated count is exactly the number of writes the pass hands out.
pub proof fn lemma_updates_are_issued(
    desired: Seq<String>,
    remote: Seq<RemoteRecord>,
    parsed: Seq<Option<IpAddress>>,
    target: IpAddress,
    n: int,
)
    ensures
        pending_upto(desired, remote, parsed, target, n).len() == updated_upto(
            desired,
            remote,
            parsed,
            target,
            n,
        ),
    decreases n,
{
    if n > 0 {
        lemma_updates_are_issued(desired, remote, parsed, target, n - 1);
    }
}

/// The summary a full pass produces.
pub open spec fn reconcile_summary(
    desired: Seq<String>,
    remote: Seq<RemoteRecord>,
    parsed: Seq<Option<IpAddress>>,
    target: IpAddress,
) -> UpdatesView {
    UpdatesView {
        updated: updated_upto(desired, remote, parsed, target, remote.len() as int),
        current: current_upto(desired, remote, parsed, target, remote.len() as int),
        missing: missing_seq(desired, names_of(remote)).len() as int,
    }
}

/// The parse of every content string for a version-4 pass.
pub open spec fn parsed_v4(remote: Seq<RemoteRecord>) -> Seq<Option<IpAddress>> {
    remote.map_values(|r: RemoteRecord| parse_content_v4(r.content@))
}

/// The summary of a version-4 pass over the raw listing.
pub open spec fn v4_summary(
    desired: Seq<String>,
    remote: Seq<RemoteRecord>,
    target: Ipv4Address,
) -> UpdatesView {
    reconcile_summary(desired, remote, parsed_v4(remote), IpAddress::V4(target))
}

/// The parse of every content string for a version-6 pass.
pub open spec fn parsed_v6(remote: Seq<RemoteRecord>) -> Seq<Option<IpAddress>> {
    remote.map_values(|r: RemoteRecord| parse_content_v6(r.content@))
}

/// The summary of a version-6 pass over the raw listing.
pub open spec fn v6_summary(
    desired: Seq<String>,
    remote: Seq<RemoteRecord>,
    target: Ipv6Address,
) -> UpdatesView {
    reconcile_summary(desired, remote, parsed_v6(remote), IpAddress::V6(target))
}

/// Prefix counts never exceed the prefix length.
proof fn lemma_counts_bounded(
    desired: Seq<String>,
    remote: Seq<RemoteRecord>,
    parsed: Seq<Option<IpAddress>>,
    target: IpAddress,
    n: int,
)
    ensures
        0 <= current_upto(desired, remote, parsed, target, n),
        0 <= updated_upto(desired, remote, parsed, target, n),
        current_upto(desired, remote, parsed, target, n) + updated_upto(
            desired,
            remote,
            parsed,
            target,
            n,
        ) <= if n >= 0 {
            n
        } else {
            0
        },
    decreases n,
{
    if n > 0 {
        lemma_counts_bounded(desired, remote, parsed, target, n - 1);
    }
}

/// The missing names are never more numerous than the desired names.
proof fn lemma_missing_bounded(expected: Seq<String>, actual: Seq<String>)
    ensures
        missing_seq(expected, actual).len() <= expected.len(),
    decreases expected.len(),
{
    if expected.len() > 0 {
        lemma_missing_bounded(expected.drop_last(), actual);
    }
}

/// One reconciliation pass in progress. Construct it from the listing,
/// drain `next_update` and perform each returned write, then read the
/// summary.
pub struct Reconciler {
    desired: Vec<String>,
    remote: Vec<RemoteRecord>,
    parsed: Vec<Option<IpAddress>>,
    target: IpAddress,
    idx: usize,
    updated: i32,
    current: i32,
    missing: i32,
    issued: Ghost<Seq<int>>,
}

impl Reconciler {
    /// The desired names the pass was built with.
    pub closed spec fn spec_desired(self) -> Seq<String> {
        self.desired@
    }

    /// The listing the pass was built with.
    pub closed spec fn spec_remote(self) -> Seq<RemoteRecord> {
        self.remote@
    }

    /// What each listed content denotes.
    pub closed spec fn spec_parsed(self) -> Seq<Option<IpAddress>> {
        self.parsed@
    }

    /// The address the pass drives records toward.
    pub closed spec fn spec_target(self) -> IpAddress {
        self.target
    }

    /// How many records the pass has examined.
    pub closed spec fn spec_examined(self) -> int {
        self.idx as int
    }

    /// The indices of the writes handed out so far, in listing order.
    pub closed spec fn spec_issued(self) -> Seq<int> {
        self.issued@
    }

    /// The pass bookkeeping is consistent: one parse per record, counts
    /// matching the examined prefix, and sizes within counting range.
    pub closed spec fn wf(self) -> bool {
        &&& self.parsed@.len() == self.remote@.len()
        &&& self.idx <= self.remote@.len()
        &&& distinct_names(self.desired@)
        &&& self.desired@.len() <= i32::MAX
        &&& self.remote@.len() <= i32::MAX
        &&& self.missing == missing_seq(self.desired@, names_of(self.remote@)).len()
        &&& self.current == current_upto(
            self.desired@,
            self.remote@,
            self.parsed@,
            self.target,
            self.idx as int,
        )
        &&& self.updated == updated_upto(
            self.desired@,
            self.remote@,
            self.parsed@,
            self.target,
            self.idx as int,
        )
        &&& self.issued@ == pending_upto(
            self.desired@,
            self.remote@,
            self.parsed@,
            self.target,
            self.idx as int,
        )
    }

    /// Builds a pass from the listing and the parse of each content.
    pub fn from_parsed(
        desired: Vec<String>,
        remote: Vec<RemoteRecord>,
        parsed: Vec<Option<IpAddress>>,
        target: IpAddress,
    ) -> (r: Reconciler)
        requires
            distinct_names(desired@),
            parsed@.len() == remote@.len(),
            desired@.len() <= i32::MAX,
            remote@.len() <= i32::MAX,
        ensures
            r.wf(),
            r.spec_desired() == desired@,
            r.spec_remote() == remote@,
            r.spec_parsed() == parsed@,
            r.spec_target() == target,
            r.spec_examined() == 0,
            r.spec_issued() == Seq::<int>::empty(),
    {
        let mut names: Vec<String> = Vec::new();
        let mut i: usize = 0;
        while i < remote.len()
            invariant
                0 <= i <= remote@.len(),
                names@ == names_of(remote@.take(i as int)),
            decreases remote@.len() - i,
        {
            names.push(remote[i].name.clone());
            proof {
                assert(names@ =~= names_of(remote@.take(i + 1 as int)));
            }
            i = i + 1;
        }
        proof {
            assert(remote@.take(remote@.len() as int) =~= remote@);
        }
        let missing_list = missing_names(&desired, &names);
        proof {
            lemma_missing_bounded(desired@, names@);
        }
        let missing = missing_list.len() as i32;
        Reconciler {
            desired,
            remote,
            parsed,
            target,
            idx: 0,
            updated: 0,
            current: 0,
            missing,
            issued: Ghost(Seq::empty()),
        }
    }

    /// Builds a version-4 pass: each listed content is parsed here and the
    /// pass drives records toward the given version-4 address.
    pub fn new_v4(desired: Vec<String>, remote: Vec<RemoteRecord>, target: Ipv4Address) -> (r:
        Reconciler)
        requires
            distinct_names(desired@),
            desired@.len() <= i32::MAX,
            remote@.len() <= i32::MAX,
        ensures
            r.wf(),
            r.spec_desired() == desired@,
            r.spec_remote() == remote@,
            r.spec_parsed() == parsed_v4(remote@),
            r.spec_target() == IpAddress::V4(target),
            r.spec_examined() == 0,
    {
        let mut parsed: Vec<Option<IpAddress>> = Vec::new();
        let mut i: usize = 0;
        while i < remote.len()
            invariant
                0 <= i <= remote@.len(),
                parsed@ == parsed_v4(remote@.take(i as int)),
            decreases remote@.len() - i,
        {
            let p = match parse_ipv4(remote[i].content.as_str()) {
                Some(a) => Some(IpAddress::V4(a)),
                None => None,
            };
            parsed.push(p);
            proof {
                assert(parsed@ =~= parsed_v4(remote@.take(i + 1 as int)));
            }
            i = i + 1;
        }
        proof {
            assert(remote@.take(remote@.len() as int) =~= remote@);
            assert(parsed@ =~= parsed_v4(remote@));
        }
        Reconciler::from_parsed(desired, remote, parsed, IpAddress::V4(target))
    }

    /// Builds a version-6 pass: each listed content is parsed here and the
    /// pass drives records toward the given version-6 address.
    pub fn new_v6(desired: Vec<String>, remote: Vec<RemoteRecord>, target: Ipv6Address) -> (r:
        Reconciler)
        requires
            distinct_names(desired@),
            desired@.len() <= i32::MAX,
            remote@.len() <= i32::MAX,
        ensures
            r.wf(),
            r.spec_desired() == desired@,
            r.spec_remote() == remote@,
            r.spec_parsed() == parsed_v6(remote@),
            r.spec_target() == IpAddress::V6(target),
            r.spec_examined() == 0,
    {
        let mut parsed: Vec<Option<IpAddress>> = Vec::new();
        let mut i: usize = 0;
        while i < remote.len()
            invariant
                0 <= i <= remote@.len(),
                parsed@ == parsed_v6(remote@.take(i as int)),
            decreases remote@.len() - i,
        {
            let p = match parse_ipv6(remote[i].content.as_str()) {
                Some(a) => Some(IpAddress::V6(a)),
                None => None,
            };
            parsed.push(p);
            proof {
                assert(parsed@ =~= parsed_v6(remote@.take(i + 1 as int)));
            }
            i = i + 1;
        }
        proof {
            assert(remote@.take(remote@.len() as int) =~= remote@);
            assert(parsed@ =~= parsed_v6(remote@));
        }
        Reconciler::from_parsed(desired, remote, parsed, IpAddress::V6(target))
    }

    /// The listed record at an index, for building its write.
    pub fn record(&self, i: usize) -> (r: &RemoteRecord)
        requires
            i < self.spec_remote().len(),
        ensures
            *r == self.spec_remote()[i as int],
    {
        &self.remote[i]
    }

    /// Advances to the next desired record whose content must be
    /// rewritten, counting the current ones passed over, and returns its
    /// index; or exhausts the listing. The caller performs the returned
    /// write before asking again; a failed write abandons the pass.
    pub fn next_update(&mut self) -> (r: Option<usize>)
        requires
            old(self).wf(),
        ensures
            final(self).wf(),
            final(self).spec_desired() == old(self).spec_desired(),
            final(self).spec_remote() == old(self).spec_remote(),
            final(self).spec_parsed() == old(self).spec_parsed(),
            final(self).spec_target() == old(self).spec_target(),
            match r {
                Some(i) => {
                    &&& old(self).spec_examined() <= i < old(self).spec_remote().len()
                    &&& final(self).spec_examined() == i + 1
                    &&& record_matched(old(self).spec_desired(), old(self).spec_remote()[i as int])
                    &&& old(self).spec_parsed()[i as int] != Some(old(self).spec_target())
                    &&& final(self).spec_issued() == old(self).spec_issued().push(i as int)
                },
                None => final(self).spec_examined() == final(self).spec_remote().len()
                    && final(self).spec_issued() == pending_upto(
                    old(self).spec_desired(),
                    old(self).spec_remote(),
                    old(self).spec_parsed(),
                    old(self).spec_target(),
                    old(self).spec_remote().len() as int,
                ),
            },
    {
        while self.idx < self.remote.len()
            invariant
                self.wf(),
                self.desired@ == old(self).desired@,
                self.remote@ == old(self).remote@,
                self.parsed@ == old(self).parsed@,
                self.target == old(self).target,
                old(self).idx <= self.idx,
                self.issued@ == old(self).issued@,
            decreases self.remote@.len() - self.idx,
        {
            let i = self.idx;
            let matched = contains_name(&self.desired, &self.remote[i].name);
            proof {
                lemma_counts_bounded(
                    self.desired@,
                    self.remote@,
                    self.parsed@,
                    self.target,
                    i + 1 as int,
                );
            }
            if matched {
                let hit = match self.parsed[i] {
                    Some(p) => p == self.target,
                    None => false,
                };
                if hit {
                    self.current = self.current + 1;
                    self.idx = i + 1;
                } else {
                    self.updated = self.updated + 1;
                    self.idx = i + 1;
                    proof {
                        self.issued@ = self.issued@.push(i as int);
                    }
                    return Some(i);
                }
            } else {
                self.idx = i + 1;
            }
        }
        None
    }

    /// The summary of the finished pass.
    pub fn summary(&self) -> (u: Updates)
        requires
            self.wf(),
            self.spec_examined() == self.spec_remote().len(),
        ensures
            u@ == reconcile_summary(
                self.spec_desired(),
                self.spec_remote(),
                self.spec_parsed(),
                self.spec_target(),
            ),
            u.wf(),
    {
        proof {
            lemma_counts_bounded(
                self.desired@,
                self.remote@,
                self.parsed@,
                self.target,
                self.idx as int,
            );
        }
        Updates { updated: self.updated, current: self.current, missing: self.missing }
    }
}

/// A desired record whose content does not parse is rewritten, whatever
/// address the pass drives toward: it contributes to the updated count and
/// never to the current count.
pub proof fn lemma_stale_content_forces_update(
    desired: Seq<String>,
    remote: Seq<RemoteRecord>,
    parsed: Seq<Option<IpAddress>>,
    target: IpAddress,
    i: int,
)
    requires
        parsed.len() == remote.len(),
        0 <= i < remote.len(),
        record_matched(desired, remote[i]),
        parsed[i] is None,
    ensures
        updated_upto(desired, remote, parsed, target, i + 1) == updated_upto(
            desired,
            remote,
            parsed,
            target,
            i,
        ) + 1,
        current_upto(desired, remote, parsed, target, i + 1) == current_upto(
            desired,
            remote,
            parsed,
            target,
            i,
        ),
{
}

/// Two passes over listings with the same names leave the same names
/// missing.
proof fn lemma_missing_same_names(expected: Seq<String>, a1: Seq<String>, a2: Seq<String>)
    requires
        forall|n: Seq<char>| contains_str(a1, n) <==> contains_str(a2, n),
    ensures
        missing_seq(expected, a1) == missing_seq(expected, a2),
    decreases expected.len(),
{
    if expected.len() > 0 {
        lemma_missing_same_names(expected.drop_last(), a1, a2);
    }
}

/// A second pass over the state the first pass left behind rewrites
/// nothing: every record the first pass rewrote now parses to the target,
/// so the second pass counts it current. The second pass finds current
/// exactly the records the first pass found current or rewrote, and the
/// same names missing.
pub proof fn lemma_second_pass_idempotent(
    desired: Seq<String>,
    remote: Seq<RemoteRecord>,
    parsed: Seq<Option<IpAddress>>,
    remote2: Seq<RemoteRecord>,
    parsed2: Seq<Option<IpAddress>>,
    target: IpAddress,
)
    requires
        parsed.len() == remote.len(),
        remote2.len() == remote.len(),
        parsed2.len() == remote.len(),
        forall|i: int| 0 <= i < remote.len() ==> remote2[i].name@ == remote[i].name@,
        forall|i: int|
            0 <= i < remote.len() ==> parsed2[i] == (if record_matched(desired, remote[i])
                && parsed[i] != Some(target) {
                Some(target)
            } else {
                parsed[i]
            }),
    ensures
        reconcile_summary(desired, remote2, parsed2, target).updated == 0,
        reconcile_summary(desired, remote2, parsed2, target).current == reconcile_summary(
            desired,
            remote,
            parsed,
            target,
        ).current + reconcile_summary(desired, remote, parsed, target).updated,
        reconcile_summary(desired, remote2, parsed2, target).current == matched_count(
            desired,
            remote,
        ),
        reconcile_summary(desired, remote2, parsed2, target).missing == reconcile_summary(
            desired,
            remote,
            parsed,
            target,
        ).missing,
{
    lemma_second_pass_counts(
        desired,
        remote,
        parsed,
        remote2,
        parsed2,
        target,
        remote.len() as int,
    );
    assert forall|n: Seq<char>| contains_str(names_of(remote2), n) <==> contains_str(
        names_of(remote),
        n,
    ) by {
        if contains_str(names_of(remote2), n) {
            let i = choose|i: int|
                0 <= i < names_of(remote2).len() && names_of(remote2)[i]@ == n;
            assert(names_of(remote)[i]@ == n);
        }
        if contains_str(names_of(remote), n) {
            let i = choose|i: int| 0 <= i < names_of(remote).len() && names_of(remote)[i]@ == n;
            assert(names_of(remote2)[i]@ == n);
        }
    }
    lemma_missing_same_names(desired, names_of(remote2), names_of(remote));
}

/// `lemma_second_pass_idempotent` for a version-4 pass, over the contents
/// themselves: when the first pass rewrote every stale desired record to
/// the target's dotted-quad text and touched nothing else, the second pass
/// rewrites nothing.
pub proof fn lemma_v4_second_pass(
    desired: Seq<String>,
    remote: Seq<RemoteRecord>,
    remote2: Seq<RemoteRecord>,
    target: Ipv4Address,
)
    requires
        remote2.len() == remote.len(),
        forall|i: int| 0 <= i < remote.len() ==> remote2[i].name@ == remote[i].name@,
        forall|i: int|
            0 <= i < remote.len() ==> remote2[i].content@ == (if record_matched(
                desired,
                remote[i],
            ) && parse_content_v4(remote[i].content@) != Some(IpAddress::V4(target)) {
                ipv4_text(target)
            } else {
                remote[i].content@
            }),
    ensures
        v4_summary(desired, remote2, target).updated == 0,
        v4_summary(desired, remote2, target).current == v4_summary(desired, remote, target).current
            + v4_summary(desired, remote, target).updated,
        v4_summary(desired, remote2, target).current == matched_count(desired, remote),
        v4_summary(desired, remote2, target).missing == v4_summary(desired, remote, target).missing,
{
    let parsed = parsed_v4(remote);
    let parsed2 = parsed_v4(remote2);
    assert forall|i: int| 0 <= i < remote.len() implies parsed2[i] == (if record_matched(
        desired,
        remote[i],
    ) && parsed[i] != Some(IpAddress::V4(target)) {
        Some(IpAddress::V4(target))
    } else {
        parsed[i]
    }) by {
        if record_matched(desired, remote[i]) && parse_content_v4(remote[i].content@) != Some(
            IpAddress::V4(target),
        ) {
            crate::addr::lemma_ipv4_round_trip(target);
            assert(remote2[i].content@ == ipv4_text(target));
            assert(parse_content_v4(remote2[i].content@) == Some(IpAddress::V4(target)));
        } else {
            assert(remote2[i].content@ == remote[i].content@);
        }
    }
    lemma_second_pass_idempotent(desired, remote, parsed, remote2, parsed2, IpAddress::V4(target));
}

/// `lemma_second_pass_idempotent` for a version-6 pass, over the contents
/// themselves: when the first pass rewrote every stale desired record to
/// the target's uncompressed text and touched nothing else, the second pass
/// rewrites nothing.
pub proof fn lemma_v6_second_pass(
    desired: Seq<String>,
    remote: Seq<RemoteRecord>,
    remote2: Seq<RemoteRecord>,
    target: Ipv6Address,
)
    requires
        remote2.len() == remote.len(),
        forall|i: int| 0 <= i < remote.len() ==> remote2[i].name@ == remote[i].name@,
        forall|i: int|
            0 <= i < remote.len() ==> remote2[i].content@ == (if record_matched(
                desired,
                remote[i],
            ) && parse_content_v6(remote[i].content@) != Some(IpAddress::V6(target)) {
                crate::addr6::ipv6_text(target)
            } else {
                remote[i].content@
            }),
    ensures
        v6_summary(desired, remote2, target).updated == 0,
        v6_summary(desired, remote2, target).current == v6_summary(desired, remote, target).current
            + v6_summary(desired, remote, target).updated,
        v6_summary(desired, remote2, target).current == matched_count(desired, remote),
        v6_summary(desired, remote2, target).missing == v6_summary(desired, remote, target).missing,
{
    let parsed = parsed_v6(remote);
    let parsed2 = parsed_v6(remote2);
    assert forall|i: int| 0 <= i < remote.len() implies parsed2[i] == (if record_matched(
        desired,
        remote[i],
    ) && parsed[i] != Some(IpAddress::V6(target)) {
        Some(IpAddress::V6(target))
    } else {
        parsed[i]
    }) by {
        if record_matched(desired, remote[i]) && parse_content_v6(remote[i].content@) != Some(
            IpAddress::V6(target),
        ) {
            crate::addr6::lemma_ipv6_round_trip(target);
            assert(remote2[i].content@ == crate::addr6::ipv6_text(target));
            assert(parse_content_v6(remote2[i].content@) == Some(IpAddress::V6(target)));
        } else {
            assert(remote2[i].content@ == remote[i].content@);
        }
    }
    lemma_second_pass_idempotent(desired, remote, parsed, remote2, parsed2, IpAddress::V6(target));
}

/// The prefix counts behind `lemma_second_pass_idempotent`.
proof fn lemma_second_pass_counts(
    desired: Seq<String>,
    remote: Seq<RemoteRecord>,
    parsed: Seq<Option<IpAddress>>,
    remote2: Seq<RemoteRecord>,
    parsed2: Seq<Option<IpAddress>>,
    target: IpAddress,
    n: int,
)
    requires
        parsed.len() == remote.len(),
        remote2.len() == remote.len(),
        parsed2.len() == remote.len(),
        0 <= n <= remote.len(),
        forall|i: int| 0 <= i < remote.len() ==> remote2[i].name@ == remote[i].name@,
        forall|i: int|
            0 <= i < remote.len() ==> parsed2[i] == (if record_matched(desired, remote[i])
                && parsed[i] != Some(target) {
                Some(target)
            } else {
                parsed[i]
            }),
    ensures
        updated_upto(desired, remote2, parsed2, target, n) == 0,
        current_upto(desired, remote2, parsed2, target, n) == current_upto(
            desired,
            remote,
            parsed,
            target,
            n,
        ) + updated_upto(desired, remote, parsed, target, n),
        current_upto(desired, remote2, parsed2, target, n) == matched_upto(desired, remote, n),
    decreases n,
{
    if n > 0 {
        lemma_second_pass_counts(desired, remote, parsed, remote2, parsed2, target, n - 1);
        assert(record_matched(desired, remote2[n - 1]) == record_matched(desired, remote[n - 1]));
    }
}

/// The write for a version-4 pass: the record's fields verbatim, only the
/// content replaced by the target's dotted-quad text.
pub fn update_payload_v4(rec: &RemoteRecord, target: &Ipv4Address) -> (p: UpdatePayload)
    ensures
        p.name@ == rec.name@,
        p.id@ == rec.id@,
        p.extras == rec.extras,
        p.content@ == ipv4_text(*target),
{
    UpdatePayload {
        name: rec.name.clone(),
        id: rec.id.clone(),
        content: ipv4_string(target),
        extras: rec.extras.clone(),
    }
}

/// An equal copy of a listed record, opaque fields included.
pub fn clone_record(r: &RemoteRecord) -> (c: RemoteRecord)
    ensures
        c == *r,
{
    RemoteRecord {
        name: r.name.clone(),
        id: r.id.clone(),
        content: r.content.clone(),
        extras: r.extras.clone(),
    }
}

/// The write for a version-6 pass: the record's fields verbatim, only the
/// content replaced by the target's uncompressed text.
pub fn update_payload_v6(rec: &RemoteRecord, target: &Ipv6Address) -> (p: UpdatePayload)
    ensures
        p.name@ == rec.name@,
        p.id@ == rec.id@,
        p.extras == rec.extras,
        p.content@ == crate::addr6::ipv6_text(*target),
{
    UpdatePayload {
        name: rec.name.clone(),
        id: rec.id.clone(),
        content: crate::addr6::ipv6_string(target),
        extras: rec.extras.clone(),
    }
}

} // verus!
