//! The record-key conventions of the JSON provider that spells the root
//! record as an empty string and reports every record under its fully
//! qualified name: configured names are mapped to keys, reported names are
//! stripped of the domain, and a listing is narrowed to one record type
//! before the pass runs.

use crate::reconcile::RemoteRecord;
use crate::reconcile::clone_record;
use crate::strutil::is_root_name;
use crate::strutil::strip_suffix_rep;
use crate::strutil::strip_suffix_repeated;
use vstd::prelude::*;
use vstd::string::StringExecFns;

verus! {

/// The key a configured record name goes by at this provider: the root
/// sentinel becomes the empty string.
pub fn porkbun_record_key(r: &String) -> (k: String)
    ensures
        r@ == "@"@ ==> k@ == Seq::<char>::empty(),
        r@ != "@"@ ==> k@ == r@,
{
    if is_root_name(r) {
        String::new()
    } else {
        r.clone()
    }
}

/// The key a reported record name denotes: the domain stripped off the
/// end, then any trailing dots.
pub fn strip_domain_from_name(name: &String, domain: &String) -> (r: String)
    ensures
        r@ == strip_suffix_rep(strip_suffix_rep(name@, domain@), "."@),
{
    let bare = strip_suffix_repeated(name.as_str(), domain.as_str());
    strip_suffix_repeated(bare.as_str(), ".")
}

/// The records whose parallel tag equals the wanted record type, in
/// listing order.
pub open spec fn filter_tagged(
    records: Seq<RemoteRecord>,
    tags: Seq<String>,
    wanted: Seq<char>,
) -> Seq<RemoteRecord>
    decreases records.len(),
{
    if records.len() == 0 {
        Seq::empty()
    } else {
        let rest = filter_tagged(records.drop_last(), tags.drop_last(), wanted);
        if tags.last()@ == wanted {
            rest.push(records.last())
        } else {
            rest
        }
    }
}

/// Narrows a listing to the records of one type, going by the parallel
/// list of each record's reported type tag.
pub fn filter_records_by_tag(records: &Vec<RemoteRecord>, tags: &Vec<String>, wanted: &str) -> (r:
    Vec<RemoteRecord>)
    requires
        tags@.len() == records@.len(),
    ensures
        r@ == filter_tagged(records@, tags@, wanted@),
{
    let mut r: Vec<RemoteRecord> = Vec::new();
    let mut i: usize = 0;
    while i < records.len()
        invariant
            0 <= i <= records@.len(),
            tags@.len() == records@.len(),
            r@ == filter_tagged(records@.take(i as int), tags@.take(i as int), wanted@),
        decreases records@.len() - i,
    {
        proof {
            assert(records@.take(i + 1 as int).drop_last() =~= records@.take(i as int));
            assert(tags@.take(i + 1 as int).drop_last() =~= tags@.take(i as int));
        }
        if crate::strutil::str_eq(tags[i].as_str(), wanted) {
            r.push(clone_record(&records[i]));
        }
        i = i + 1;
    }
    proof {
        assert(records@.take(records@.len() as int) =~= records@);
        assert(tags@.take(tags@.len() as int) =~= tags@);
    }
    r
}

/// The endpoint that lists a domain's records.
pub fn retrieve_url(base: &String, domain: &String) -> (r: String)
    ensures
        r@ == base@ + "/dns/retrieve/"@ + domain@,
{
    let mut s = base.clone();
    s.append("/dns/retrieve/");
    s.append(domain.as_str());
    s
}

/// The endpoint that edits one record by its id.
pub fn edit_url(base: &String, domain: &String, id: &String) -> (r: String)
    ensures
        r@ == base@ + "/dns/edit/"@ + domain@ + "/"@ + id@,
{
    let mut s = base.clone();
    s.append("/dns/edit/");
    s.append(domain.as_str());
    s.append("/");
    s.append(id.as_str());
    s
}

} // verus!
