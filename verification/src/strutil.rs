//! Text helpers the providers' wire conventions need: substring search for
//! response-body success tokens, case-insensitive comparison for
//! configuration selectors, and record-name assembly.

use vstd::prelude::*;
use vstd::string::StrSliceExecFns;
use vstd::string::StringExecFns;

verus! {

/// Whether `needle` occurs in `haystack` starting at position `i`.
pub open spec fn is_substring_at(haystack: Seq<char>, needle: Seq<char>, i: int) -> bool {
    0 <= i && i + needle.len() <= haystack.len() && haystack.subrange(i, i + needle.len())
        == needle
}

/// Whether `needle` occurs anywhere in `haystack`.
pub open spec fn has_substring(haystack: Seq<char>, needle: Seq<char>) -> bool {
    exists|i: int| is_substring_at(haystack, needle, i)
}

/// Whether `needle` occurs anywhere in `haystack`.
pub fn contains_substring(haystack: &str, needle: &str) -> (r: bool)
    ensures
        r == has_substring(haystack@, needle@),
{
    let hlen = haystack.unicode_len();
    let nlen = needle.unicode_len();
    if nlen > hlen {
        return false;
    }
    if nlen == 0 {
        proof {
            assert(haystack@.subrange(0, 0) =~= needle@);
            assert(is_substring_at(haystack@, needle@, 0));
        }
        return true;
    }
    let mut i: usize = 0;
    while i <= hlen - nlen
        invariant
            0 <= i <= hlen - nlen + 1,
            1 <= nlen <= hlen,
            hlen == haystack@.len(),
            nlen == needle@.len(),
            forall|k: int| 0 <= k < i ==> !is_substring_at(haystack@, needle@, k),
        decreases hlen - nlen + 1 - i,
    {
        let mut j: usize = 0;
        let mut hit = true;
        while j < nlen
            invariant
                0 <= j <= nlen,
                i + nlen <= hlen,
                hlen == haystack@.len(),
                nlen == needle@.len(),
                hit ==> forall|k: int| 0 <= k < j ==> haystack@[i + k] == needle@[k],
                !hit ==> !is_substring_at(haystack@, needle@, i as int),
            decreases nlen - j,
        {
            if haystack.get_char(i + j) != needle.get_char(j) {
                proof {
                    if is_substring_at(haystack@, needle@, i as int) {
                        assert(haystack@.subrange(i as int, i + needle@.len())[j as int]
                            == haystack@[i + j]);
                    }
                }
                hit = false;
                j = nlen;
            } else {
                j = j + 1;
            }
        }
        if hit {
            proof {
                assert(haystack@.subrange(i as int, i + needle@.len()) =~= needle@);
                assert(is_substring_at(haystack@, needle@, i as int));
            }
            return true;
        }
        i = i + 1;
    }
    proof {
        assert forall|k: int| !is_substring_at(haystack@, needle@, k) by {
            if k > hlen - nlen {
                assert(!is_substring_at(haystack@, needle@, k));
            }
        }
    }
    false
}

/// `s` with every trailing repetition of `suffix` removed.
pub open spec fn strip_suffix_rep(s: Seq<char>, suffix: Seq<char>) -> Seq<char>
    decreases s.len(),
{
    if suffix.len() > 0 && s.len() >= suffix.len() && s.subrange(
        s.len() - suffix.len(),
        s.len() as int,
    ) == suffix {
        strip_suffix_rep(s.take(s.len() - suffix.len()), suffix)
    } else {
        s
    }
}

/// Removes every trailing repetition of `suffix` from `s`.
pub fn strip_suffix_repeated(s: &str, suffix: &str) -> (r: String)
    ensures
        r@ == strip_suffix_rep(s@, suffix@),
{
    let slen = s.unicode_len();
    let nlen = suffix.unicode_len();
    if nlen == 0 {
        return String::from_str(s);
    }
    proof {
        assert(s@.take(slen as int) =~= s@);
    }
    let mut e: usize = slen;
    loop
        invariant
            0 <= e <= slen,
            1 <= nlen,
            slen == s@.len(),
            nlen == suffix@.len(),
            strip_suffix_rep(s@.take(e as int), suffix@) == strip_suffix_rep(s@, suffix@),
        ensures
            0 <= e <= slen,
            strip_suffix_rep(s@, suffix@) == s@.take(e as int),
        decreases e,
    {
        if e < nlen {
            proof {
                assert(strip_suffix_rep(s@.take(e as int), suffix@) == s@.take(e as int));
            }
            break ;
        }
        let mut k: usize = 0;
        let mut hit = true;
        while k < nlen
            invariant
                0 <= k <= nlen,
                nlen <= e <= slen,
                slen == s@.len(),
                nlen == suffix@.len(),
                hit ==> forall|j: int| 0 <= j < k ==> s@[e - nlen + j] == suffix@[j],
                !hit ==> s@.take(e as int).subrange(e - nlen, e as int) != suffix@,
            decreases nlen - k,
        {
            if s.get_char(e - nlen + k) != suffix.get_char(k) {
                proof {
                    assert(s@.take(e as int).subrange(e - nlen, e as int)[k as int] == s@[e - nlen
                        + k]);
                }
                hit = false;
                k = nlen;
            } else {
                k = k + 1;
            }
        }
        if hit {
            proof {
                let t = s@.take(e as int);
                assert(t.subrange(t.len() - suffix@.len(), t.len() as int) =~= suffix@);
                assert(t.take(t.len() - suffix@.len()) =~= s@.take(e - nlen));
            }
            e = e - nlen;
        } else {
            proof {
                assert(strip_suffix_rep(s@.take(e as int), suffix@) == s@.take(e as int));
            }
            break ;
        }
    }
    let out = s.substring_char(0, e);
    proof {
        assert(s@.take(e as int) =~= s@.subrange(0, e as int));
    }
    String::from_str(out)
}

/// An upper-case ASCII letter folded to lower case; any other character
/// unchanged.
pub open spec fn lower_char(c: char) -> char {
    if ('A' as int) <= (c as int) && (c as int) <= ('Z' as int) {
        (((c as int) + 32) as u8) as char
    } else {
        c
    }
}

/// Whether two strings are equal once ASCII letters are folded to lower
/// case.
pub open spec fn eq_ignore_ascii_case_text(a: Seq<char>, b: Seq<char>) -> bool {
    a.len() == b.len() && (forall|i: int| 0 <= i < a.len() ==> lower_char(a[i]) == lower_char(
        b[i],
    ))
}

/// Compares two strings, folding ASCII letters to lower case.
pub fn eq_ignore_ascii_case(a: &str, b: &str) -> (r: bool)
    ensures
        r == eq_ignore_ascii_case_text(a@, b@),
{
    let alen = a.unicode_len();
    let blen = b.unicode_len();
    if alen != blen {
        return false;
    }
    let mut i: usize = 0;
    while i < alen
        invariant
            0 <= i <= alen,
            alen == a@.len(),
            alen == b@.len(),
            forall|k: int| 0 <= k < i ==> lower_char(a@[k]) == lower_char(b@[k]),
        decreases alen - i,
    {
        let ca = a.get_char(i) as u32;
        let cb = b.get_char(i) as u32;
        let la = if ca >= 65 && ca <= 90 {
            ca + 32
        } else {
            ca
        };
        let lb = if cb >= 65 && cb <= 90 {
            cb + 32
        } else {
            cb
        };
        if la != lb {
            return false;
        }
        i = i + 1;
    }
    true
}

/// Whether two string slices hold the same characters.
pub fn str_eq(a: &str, b: &str) -> (r: bool)
    ensures
        r == (a@ == b@),
{
    let alen = a.unicode_len();
    let blen = b.unicode_len();
    if alen != blen {
        return false;
    }
    let mut i: usize = 0;
    while i < alen
        invariant
            0 <= i <= alen,
            alen == a@.len(),
            alen == b@.len(),
            forall|k: int| 0 <= k < i ==> a@[k] == b@[k],
        decreases alen - i,
    {
        if a.get_char(i) != b.get_char(i) {
            return false;
        }
        i = i + 1;
    }
    proof {
        assert(a@ =~= b@);
    }
    true
}

/// Whether a configured record name is the root sentinel "@".
pub fn is_root_name(s: &String) -> (r: bool)
    ensures
        r == (s@ == "@"@),
{
    proof {
        reveal_strlit("@");
    }
    if s.as_str().unicode_len() == 1 {
        let c = s.as_str().get_char(0);
        if c == '@' {
            proof {
                assert(s@ =~= "@"@);
            }
            return true;
        }
    }
    false
}

/// The fully qualified host a record name denotes under a domain: the
/// domain itself for the root sentinel, otherwise name dot domain.
pub open spec fn host_text(record: Seq<char>, domain: Seq<char>) -> Seq<char> {
    if record == "@"@ {
        domain
    } else {
        record + "."@ + domain
    }
}

/// The fully qualified host for a record under a domain.
pub fn host_name(record: &String, domain: &String) -> (r: String)
    ensures
        r@ == host_text(record@, domain@),
{
    if is_root_name(record) {
        domain.clone()
    } else {
        let mut s = record.clone();
        s.append(".");
        s.append(domain.as_str());
        s
    }
}

/// The DNS query for a record under a domain: the host, fully qualified
/// with a trailing dot.
pub fn dns_query_name(record: &String, domain: &String) -> (r: String)
    ensures
        r@ == host_text(record@, domain@) + "."@,
{
    let mut s = host_name(record, domain);
    s.append(".");
    s
}

} // verus!
