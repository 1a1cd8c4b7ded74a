//! The run around the passes: which IP families the configuration needs,
//! which (domain, family) passes to run and in what order, and the run-wide
//! fold of every pass's outcome into one total and one failure flag. One
//! pass's failure never touches another pass's counts: it only sets the
//! flag.

use crate::addr::IpType;
use crate::config::DomainConfig;
use crate::summary::Updates;
use crate::summary::UpdatesView;
use vstd::prelude::*;

verus! {

/// Whether any binding declares the family.
pub open spec fn family_declared(domains: Seq<DomainConfig>, t: IpType) -> bool {
    exists|i: int| 0 <= i < domains.len() && domains[i].spec_ip_types().contains(t)
}

/// The families the run must resolve: those the bindings declare, in the
/// fixed order version 4 then version 6; both when nothing is configured,
/// so that a bare run still reports an address.
pub open spec fn needed_families_spec(domains: Seq<DomainConfig>) -> Seq<IpType> {
    if domains.len() == 0 {
        seq![IpType::V4, IpType::V6]
    } else {
        let v4 = family_declared(domains, IpType::V4);
        let v6 = family_declared(domains, IpType::V6);
        if v4 && v6 {
            seq![IpType::V4, IpType::V6]
        } else if v4 {
            seq![IpType::V4]
        } else if v6 {
            seq![IpType::V6]
        } else {
            Seq::empty()
        }
    }
}

/// Whether a family list declares the family.
fn types_contain(kinds: &Vec<IpType>, t: IpType) -> (r: bool)
    ensures
        r == kinds@.contains(t),
{
    let mut i: usize = 0;
    while i < kinds.len()
        invariant
            0 <= i <= kinds@.len(),
            forall|k: int| 0 <= k < i ==> kinds@[k] != t,
        decreases kinds@.len() - i,
    {
        if kinds[i] == t {
            return true;
        }
        i = i + 1;
    }
    false
}

/// Whether any binding declares the family.
fn any_declares(domains: &Vec<DomainConfig>, t: IpType) -> (r: bool)
    ensures
        r == family_declared(domains@, t),
{
    let mut i: usize = 0;
    while i < domains.len()
        invariant
            0 <= i <= domains@.len(),
            forall|k: int| 0 <= k < i ==> !domains@[k].spec_ip_types().contains(t),
        decreases domains@.len() - i,
    {
        let kinds = domains[i].get_ip_types();
        if types_contain(&kinds, t) {
            return true;
        }
        i = i + 1;
    }
    false
}

/// The families the run must resolve.
pub fn needed_families(domains: &Vec<DomainConfig>) -> (r: Vec<IpType>)
    ensures
        r@ == needed_families_spec(domains@),
{
    let mut r: Vec<IpType> = Vec::new();
    if domains.len() == 0 {
        r.push(IpType::V4);
        r.push(IpType::V6);
        proof {
            assert(r@ =~= seq![IpType::V4, IpType::V6]);
        }
        return r;
    }
    let v4 = any_declares(domains, IpType::V4);
    let v6 = any_declares(domains, IpType::V6);
    if v4 {
        r.push(IpType::V4);
    }
    if v6 {
        r.push(IpType::V6);
    }
    proof {
        assert(r@ =~= needed_families_spec(domains@));
    }
    r
}

/// The passes one binding contributes, against the first `m` resolved
/// families: one pass per resolved family the binding declares, in
/// resolution order.
pub open spec fn domain_jobs_upto(
    kinds: Seq<IpType>,
    di: int,
    resolved: Seq<IpType>,
    m: int,
) -> Seq<(usize, IpType)>
    decreases m,
{
    if m <= 0 {
        Seq::empty()
    } else {
        domain_jobs_upto(kinds, di, resolved, m - 1) + if kinds.contains(resolved[m - 1]) {
            seq![(di as usize, resolved[m - 1])]
        } else {
            Seq::empty()
        }
    }
}

/// The passes of the first `n` bindings, in configuration order.
pub open spec fn jobs_upto(domains: Seq<DomainConfig>, resolved: Seq<IpType>, n: int) -> Seq<
    (usize, IpType),
>
    decreases n,
{
    if n <= 0 {
        Seq::empty()
    } else {
        jobs_upto(domains, resolved, n - 1) + domain_jobs_upto(
            domains[n - 1].spec_ip_types(),
            n - 1,
            resolved,
            resolved.len() as int,
        )
    }
}

/// Every pass the run will make: for each binding in configuration order,
/// one pass per resolved family it declares.
pub open spec fn jobs_spec(domains: Seq<DomainConfig>, resolved: Seq<IpType>) -> Seq<
    (usize, IpType),
> {
    jobs_upto(domains, resolved, domains.len() as int)
}

/// Every pass the run will make, as (binding index, family) pairs.
pub fn plan_jobs(domains: &Vec<DomainConfig>, resolved: &Vec<IpType>) -> (r: Vec<(usize, IpType)>)
    ensures
        r@ == jobs_spec(domains@, resolved@),
{
    let mut r: Vec<(usize, IpType)> = Vec::new();
    let mut i: usize = 0;
    while i < domains.len()
        invariant
            0 <= i <= domains@.len(),
            r@ == jobs_upto(domains@, resolved@, i as int),
        decreases domains@.len() - i,
    {
        let kinds = domains[i].get_ip_types();
        let mut j: usize = 0;
        while j < resolved.len()
            invariant
                0 <= j <= resolved@.len(),
                0 <= i < domains@.len(),
                kinds@ == domains@[i as int].spec_ip_types(),
                r@ == jobs_upto(domains@, resolved@, i as int) + domain_jobs_upto(
                    kinds@,
                    i as int,
                    resolved@,
                    j as int,
                ),
            decreases resolved@.len() - j,
        {
            if types_contain(&kinds, resolved[j]) {
                r.push((i, resolved[j]));
            }
            proof {
                assert(r@ =~= jobs_upto(domains@, resolved@, i as int) + domain_jobs_upto(
                    kinds@,
                    i as int,
                    resolved@,
                    j + 1 as int,
                ));
            }
            j = j + 1;
        }
        i = i + 1;
    }
    r
}

/// The run-wide total of a sequence of pass outcomes: the sum of the
/// summaries of the passes that finished.
pub open spec fn run_total(outcomes: Seq<Option<UpdatesView>>) -> UpdatesView
    decreases outcomes.len(),
{
    if outcomes.len() == 0 {
        UpdatesView::zero()
    } else {
        let prev = run_total(outcomes.drop_last());
        match outcomes.last() {
            Some(u) => prev.spec_add(u),
            None => prev,
        }
    }
}

/// Whether any pass of the run failed.
pub open spec fn run_failed(outcomes: Seq<Option<UpdatesView>>) -> bool
    decreases outcomes.len(),
{
    if outcomes.len() == 0 {
        false
    } else {
        run_failed(outcomes.drop_last()) || outcomes.last() is None
    }
}

/// The run total splits over any division of the outcomes.
pub proof fn lemma_run_total_add(a: Seq<Option<UpdatesView>>, b: Seq<Option<UpdatesView>>)
    ensures
        run_total(a + b) == run_total(a).spec_add(run_total(b)),
        run_failed(a + b) == (run_failed(a) || run_failed(b)),
    decreases b.len(),
{
    if b.len() == 0 {
        assert(a + b =~= a);
    } else {
        lemma_run_total_add(a, b.drop_last());
        assert((a + b).drop_last() =~= a + b.drop_last());
        assert((a + b).last() == b.last());
    }
}

/// One pass's failure is isolated: it sets the flag and contributes no
/// counts, and every other pass contributes exactly what it would have
/// contributed had the failing pass not run at all.
pub proof fn lemma_failure_isolated(
    before: Seq<Option<UpdatesView>>,
    after: Seq<Option<UpdatesView>>,
)
    ensures
        run_total(before + seq![None] + after) == run_total(before + after),
        run_failed(before + seq![None] + after),
{
    lemma_run_total_add(before + seq![None::<UpdatesView>], after);
    lemma_run_total_add(before, seq![None::<UpdatesView>]);
    lemma_run_total_add(before, after);
    assert((before + seq![None::<UpdatesView>]) + after =~= before + seq![None::<UpdatesView>]
        + after);
    let none_only = seq![None::<UpdatesView>];
    assert(none_only.len() == 1);
    assert(none_only.last() is None);
    assert(none_only.drop_last() =~= Seq::<Option<UpdatesView>>::empty());
    assert(run_total(Seq::<Option<UpdatesView>>::empty()) == UpdatesView::zero());
    assert(run_total(none_only) == UpdatesView::zero());
    crate::summary::lemma_add_identity(run_total(before));
}

/// The run-wide accumulator: the total so far and whether anything failed.
pub struct RunTotals {
    total: Updates,
    failed: bool,
    outcomes: Ghost<Seq<Option<UpdatesView>>>,
}

impl RunTotals {
    /// The outcome of every pass reported so far, in order.
    pub closed spec fn spec_outcomes(self) -> Seq<Option<UpdatesView>> {
        self.outcomes@
    }

    /// The accumulator matches the fold of the reported outcomes.
    pub closed spec fn wf(self) -> bool {
        self.total@ == run_total(self.outcomes@) && self.failed == run_failed(self.outcomes@)
            && self.total.wf()
    }

    /// An accumulator with nothing reported.
    pub fn new() -> (r: RunTotals)
        ensures
            r.wf(),
            r.spec_outcomes() == Seq::<Option<UpdatesView>>::empty(),
    {
        RunTotals {
            total: Updates { updated: 0, current: 0, missing: 0 },
            failed: false,
            outcomes: Ghost(Seq::empty()),
        }
    }

    /// The total so far.
    pub fn total(&self) -> (r: Updates)
        requires
            self.wf(),
        ensures
            r@ == run_total(self.spec_outcomes()),
            r.wf(),
    {
        self.total
    }

    /// Whether any pass failed so far.
    pub fn failed(&self) -> (r: bool)
        requires
            self.wf(),
        ensures
            r == run_failed(self.spec_outcomes()),
    {
        self.failed
    }

    /// Folds one finished pass's summary into the total.
    pub fn absorb(&mut self, u: Updates)
        requires
            old(self).wf(),
            u.wf(),
            run_total(old(self).spec_outcomes()).add_in_range(u@),
        ensures
            final(self).wf(),
            final(self).spec_outcomes() == old(self).spec_outcomes().push(Some(u@)),
    {
        proof {
            assert(self.outcomes@.push(Some(u@)).drop_last() =~= self.outcomes@);
        }
        self.total.add_assign(u);
        proof {
            self.outcomes@ = self.outcomes@.push(Some(u@));
        }
    }

    /// Records one failed pass: the flag is set and the total is
    /// untouched.
    pub fn record_failure(&mut self)
        requires
            old(self).wf(),
        ensures
            final(self).wf(),
            final(self).spec_outcomes() == old(self).spec_outcomes().push(
                None::<UpdatesView>,
            ),
    {
        proof {
            assert(self.outcomes@.push(None::<UpdatesView>).drop_last() =~= self.outcomes@);
        }
        self.failed = true;
        proof {
            self.outcomes@ = self.outcomes@.push(None::<UpdatesView>);
        }
    }

    /// Whether one more summary still fits the total's counters; when it
    /// does not, the caller reports the pass as failed instead.
    pub fn can_absorb(&self, u: &Updates) -> (r: bool)
        requires
            self.wf(),
            u.wf(),
        ensures
            r == run_total(self.spec_outcomes()).add_in_range(u@),
    {
        let t = self.total;
        t.updated <= i32::MAX - u.updated && t.current <= i32::MAX - u.current && t.missing
            <= i32::MAX - u.missing
    }
}

} // verus!
