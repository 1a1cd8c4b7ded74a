//! Run accounting: the `Updates` summary triple and helpers for comparing
//! the desired record names against the names a provider reported.

use crate::addr::dec_digits_text;
use crate::addr::push_dec;
use vstd::prelude::*;
use vstd::string::StringExecFns;

verus! {

/// Counts from one reconciliation pass: records rewritten, records already
/// holding the target address, and desired records absent from the remote
/// listing.
#[derive(Clone, Copy, Debug, PartialEq, Eq, Structural)]
pub struct Updates {
    pub updated: i32,
    pub current: i32,
    pub missing: i32,
}

/// Mathematical counterpart of `Updates`: the same triple over unbounded
/// integers, under which the monoid laws are stated.
pub ghost struct UpdatesView {
    pub updated: int,
    pub current: int,
    pub missing: int,
}

impl View for Updates {
    type V = UpdatesView;

    open spec fn view(&self) -> UpdatesView {
        UpdatesView {
            updated: self.updated as int,
            current: self.current as int,
            missing: self.missing as int,
        }
    }
}

impl UpdatesView {
    /// All counts are non-negative.
    pub open spec fn wf(self) -> bool {
        self.updated >= 0 && self.current >= 0 && self.missing >= 0
    }

    /// Pointwise addition of the three counts.
    pub open spec fn spec_add(self, other: UpdatesView) -> UpdatesView {
        UpdatesView {
            updated: self.updated + other.updated,
            current: self.current + other.current,
            missing: self.missing + other.missing,
        }
    }

    /// The identity of `spec_add`.
    pub open spec fn zero() -> UpdatesView {
        UpdatesView { updated: 0, current: 0, missing: 0 }
    }

    /// Every count fits an `i32` after pointwise addition.
    pub open spec fn add_in_range(self, other: UpdatesView) -> bool {
        self.spec_add(other).updated <= i32::MAX && self.spec_add(other).current <= i32::MAX
            && self.spec_add(other).missing <= i32::MAX
    }
}

/// Summary addition is associative: folding partial results may be grouped
/// in any way.
pub proof fn lemma_add_associative(a: UpdatesView, b: UpdatesView, c: UpdatesView)
    ensures
        a.spec_add(b).spec_add(c) == a.spec_add(b.spec_add(c)),
{
}

/// Summary addition is commutative.
pub proof fn lemma_add_commutative(a: UpdatesView, b: UpdatesView)
    ensures
        a.spec_add(b) == b.spec_add(a),
{
}

/// The all-zero summary is the identity of summary addition.
pub proof fn lemma_add_identity(a: UpdatesView)
    ensures
        a.spec_add(UpdatesView::zero()) == a,
        UpdatesView::zero().spec_add(a) == a,
{
}

impl Updates {
    pub open spec fn wf(self) -> bool {
        self@.wf()
    }

    /// Pointwise addition, assigning into `self`.
    pub fn add_assign(&mut self, other: Updates)
        requires
            old(self).wf(),
            other.wf(),
            old(self)@.add_in_range(other@),
        ensures
            final(self)@ == old(self)@.spec_add(other@),
            final(self).wf(),
    {
        self.updated = self.updated + other.updated;
        self.current = self.current + other.current;
        self.missing = self.missing + other.missing;
    }

    /// Pointwise addition.
    pub fn add(self, other: Updates) -> (r: Updates)
        requires
            self.wf(),
            other.wf(),
            self@.add_in_range(other@),
        ensures
            r@ == self@.spec_add(other@),
            r.wf(),
    {
        let mut new = self;
        new.add_assign(other);
        new
    }
}

impl Updates {
    /// The line a summary prints as.
    pub open spec fn message_text(self) -> Seq<char> {
        "updated: "@ + dec_digits_text(self.updated as int) + ", already current: "@
            + dec_digits_text(self.current as int) + ", missing: "@ + dec_digits_text(
            self.missing as int,
        )
    }

    /// Renders the summary as its one-line report.
    pub fn summary_message(&self) -> (r: String)
        requires
            self.wf(),
        ensures
            r@ == self.message_text(),
    {
        let mut s = String::from_str("updated: ");
        push_dec(&mut s, self.updated as u32);
        s.append(", already current: ");
        push_dec(&mut s, self.current as u32);
        s.append(", missing: ");
        push_dec(&mut s, self.missing as u32);
        s
    }
}

impl Default for Updates {
    /// The all-zero summary.
    fn default() -> (r: Updates)
        ensures
            r@ == UpdatesView::zero(),
            r.wf(),
    {
        Updates { updated: 0, current: 0, missing: 0 }
    }
}

/// Whether some entry of `names` views as the character sequence `n`.
pub open spec fn contains_str(names: Seq<String>, n: Seq<char>) -> bool {
    exists|i: int| 0 <= i < names.len() && names[i]@ == n
}

/// No two entries of `names` are the same string.
pub open spec fn distinct_names(names: Seq<String>) -> bool {
    forall|i: int, j: int| 0 <= i < j < names.len() ==> names[i]@ != names[j]@
}

/// The entries of `expected` that occur nowhere in `actual`, in order.
pub open spec fn missing_seq(expected: Seq<String>, actual: Seq<String>) -> Seq<String>
    decreases expected.len(),
{
    if expected.len() == 0 {
        Seq::empty()
    } else {
        let rest = missing_seq(expected.drop_last(), actual);
        if contains_str(actual, expected.last()@) {
            rest
        } else {
            rest.push(expected.last())
        }
    }
}

/// Whether `names` holds an entry equal to `n`.
pub fn contains_name(names: &Vec<String>, n: &String) -> (r: bool)
    ensures
        r == contains_str(names@, n@),
{
    let mut i: usize = 0;
    while i < names.len()
        invariant
            0 <= i <= names@.len(),
            forall|k: int| 0 <= k < i ==> names@[k]@ != n@,
        decreases names@.len() - i,
    {
        if names[i].eq(n) {
            return true;
        }
        i = i + 1;
    }
    false
}

/// The expected names that the remote listing did not report, in the order
/// they were configured.
pub fn missing_names(expected: &Vec<String>, actual: &Vec<String>) -> (r: Vec<String>)
    ensures
        r@ == missing_seq(expected@, actual@),
{
    let mut r: Vec<String> = Vec::new();
    let mut i: usize = 0;
    while i < expected.len()
        invariant
            0 <= i <= expected@.len(),
            r@ == missing_seq(expected@.take(i as int), actual@),
        decreases expected@.len() - i,
    {
        let is_there = contains_name(actual, &expected[i]);
        proof {
            assert(expected@.take(i + 1 as int).drop_last() =~= expected@.take(i as int));
            assert(expected@.take(i + 1 as int).last() == expected@[i as int]);
        }
        if !is_there {
            r.push(expected[i].clone());
        }
        i = i + 1;
    }
    proof {
        assert(expected@.take(expected@.len() as int) =~= expected@);
    }
    r
}

/// The diff is exact: a name is among the missing ones precisely when it
/// is expected and the remote listing does not report it, and the missing
/// names repeat no more often than the expected ones do.
pub proof fn lemma_missing_seq_correct(expected: Seq<String>, actual: Seq<String>)
    ensures
        forall|n: Seq<char>|
            contains_str(missing_seq(expected, actual), n) <==> (contains_str(expected, n)
                && !contains_str(actual, n)),
        distinct_names(expected) ==> distinct_names(missing_seq(expected, actual)),
    decreases expected.len(),
{
    if expected.len() > 0 {
        lemma_missing_seq_correct(expected.drop_last(), actual);
        let prefix = expected.drop_last();
        let rest = missing_seq(prefix, actual);
        let whole = missing_seq(expected, actual);
        assert forall|n: Seq<char>|
            contains_str(whole, n) <==> (contains_str(expected, n) && !contains_str(
                actual,
                n,
            )) by {
            if contains_str(whole, n) {
                let i = choose|i: int| 0 <= i < whole.len() && whole[i]@ == n;
                if i < rest.len() {
                    assert(rest[i]@ == n);
                    assert(contains_str(rest, n));
                    assert(contains_str(prefix, n) && !contains_str(actual, n));
                    let j = choose|j: int| 0 <= j < prefix.len() && prefix[j]@ == n;
                    assert(expected[j]@ == n);
                } else {
                    assert(whole == rest.push(expected.last()));
                    assert(expected[expected.len() - 1]@ == n);
                }
            }
            if contains_str(expected, n) && !contains_str(actual, n) {
                let i = choose|i: int| 0 <= i < expected.len() && expected[i]@ == n;
                if i < expected.len() - 1 {
                    assert(prefix[i]@ == n);
                    assert(contains_str(prefix, n));
                    assert(contains_str(rest, n));
                    let j = choose|j: int| 0 <= j < rest.len() && rest[j]@ == n;
                    assert(whole[j]@ == n);
                } else {
                    assert(expected.last()@ == n);
                    assert(whole == rest.push(expected.last()));
                    assert(whole[rest.len() as int]@ == n);
                }
            }
        }
        if distinct_names(expected) {
            assert forall|i: int, j: int|
                0 <= i < j < whole.len() implies whole[i]@ != whole[j]@ by {
                if j >= rest.len() {
                    assert(whole == rest.push(expected.last()));
                    assert(rest[i]@ == whole[i]@);
                    assert(contains_str(rest, rest[i]@));
                    assert(contains_str(prefix, rest[i]@));
                    let k = choose|k: int| 0 <= k < prefix.len() && prefix[k]@ == rest[i]@;
                    assert(expected[k]@ == rest[i]@);
                    assert(expected[k]@ != expected.last()@);
                }
            }
        }
    }
}

/// `names` with every later repetition of an entry removed: each name's
/// first occurrence, in order.
pub open spec fn dedup_seq(names: Seq<String>) -> Seq<String>
    decreases names.len(),
{
    if names.len() == 0 {
        Seq::empty()
    } else {
        let rest = dedup_seq(names.drop_last());
        if contains_str(names.drop_last(), names.last()@) {
            rest
        } else {
            rest.push(names.last())
        }
    }
}

/// Deduplication keeps exactly the names that were there, without
/// repetition.
pub proof fn lemma_dedup_seq(names: Seq<String>)
    ensures
        distinct_names(dedup_seq(names)),
        forall|n: Seq<char>| contains_str(dedup_seq(names), n) <==> contains_str(names, n),
    decreases names.len(),
{
    if names.len() > 0 {
        lemma_dedup_seq(names.drop_last());
        let prefix = names.drop_last();
        let rest = dedup_seq(prefix);
        let whole = dedup_seq(names);
        assert forall|n: Seq<char>| contains_str(whole, n) <==> contains_str(names, n) by {
            if contains_str(names, n) {
                let i = choose|i: int| 0 <= i < names.len() && names[i]@ == n;
                if i < names.len() - 1 {
                    assert(prefix[i]@ == n);
                    assert(contains_str(prefix, n));
                } else {
                    assert(names.last()@ == n);
                }
                if contains_str(prefix, n) {
                    assert(contains_str(rest, n));
                    let j = choose|j: int| 0 <= j < rest.len() && rest[j]@ == n;
                    assert(whole[j]@ == n);
                    assert(contains_str(whole, n));
                } else {
                    assert(names.last()@ == n);
                    assert(whole == rest.push(names.last()));
                    assert(whole[rest.len() as int]@ == n);
                    assert(contains_str(whole, n));
                }
            }
            if contains_str(whole, n) {
                let i = choose|i: int| 0 <= i < whole.len() && whole[i]@ == n;
                if i < rest.len() {
                    assert(rest[i]@ == n);
                    assert(contains_str(rest, n));
                    assert(contains_str(prefix, n));
                    let j = choose|j: int| 0 <= j < prefix.len() && prefix[j]@ == n;
                    assert(names[j]@ == n);
                    assert(contains_str(names, n));
                } else {
                    assert(whole == rest.push(names.last()));
                    assert(names.last()@ == n);
                    assert(names[names.len() - 1]@ == n);
                    assert(contains_str(names, n));
                }
            }
        }
        if !contains_str(prefix, names.last()@) {
            assert forall|i: int, j: int|
                0 <= i < j < dedup_seq(names).len() implies dedup_seq(names)[i]@ != dedup_seq(
                names,
            )[j]@ by {
                if j < rest.len() {
                } else {
                    assert(rest[i]@ == dedup_seq(names)[i]@);
                    assert(contains_str(rest, rest[i]@));
                    assert(contains_str(prefix, rest[i]@));
                }
            }
        }
    }
}

/// Each name's first occurrence, in configuration order.
pub fn dedup_names(names: &Vec<String>) -> (r: Vec<String>)
    ensures
        r@ == dedup_seq(names@),
        distinct_names(r@),
        forall|n: Seq<char>| contains_str(r@, n) <==> contains_str(names@, n),
{
    let mut r: Vec<String> = Vec::new();
    let mut i: usize = 0;
    while i < names.len()
        invariant
            0 <= i <= names@.len(),
            r@ == dedup_seq(names@.take(i as int)),
        decreases names@.len() - i,
    {
        proof {
            lemma_dedup_seq(names@.take(i as int));
            assert(names@.take(i + 1 as int).drop_last() =~= names@.take(i as int));
        }
        let seen = contains_name(&r, &names[i]);
        if !seen {
            r.push(names[i].clone());
        }
        i = i + 1;
    }
    proof {
        assert(names@.take(names@.len() as int) =~= names@);
        lemma_dedup_seq(names@);
    }
    r
}

/// How many expected names the remote listing did not report.
pub fn log_missing_domains(expected: &Vec<String>, actual: &Vec<String>) -> (r: usize)
    ensures
        r == missing_seq(expected@, actual@).len(),
{
    let missing = missing_names(expected, actual);
    missing.len()
}

} // verus!
