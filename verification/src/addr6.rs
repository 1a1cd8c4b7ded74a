//! The textual form of version-6 addresses: up to eight groups of one to
//! four hex digits separated by single colons, one optional "::" standing
//! for the elided zero groups, and an optional embedded dotted quad as the
//! last two groups. The grammar is specified as a functional scan over the
//! characters, and the parser here is proved against it.

use crate::addr::Ipv6Address;
use crate::addr::is_dec_digit;
use crate::addr::dec_val;
use crate::addr::pow10;
use vstd::prelude::*;
use vstd::string::StrSliceExecFns;

verus! {

/// Whether `c` is a hexadecimal digit.
pub open spec fn is_hex_digit(c: char) -> bool {
    is_dec_digit(c) || (('a' as int) <= (c as int) && (c as int) <= ('f' as int)) || (('A' as int)
        <= (c as int) && (c as int) <= ('F' as int))
}

/// The value of a hexadecimal digit.
pub open spec fn hex_val(c: char) -> int {
    if is_dec_digit(c) {
        dec_val(c)
    } else if ('a' as int) <= (c as int) && (c as int) <= ('f' as int) {
        c as int - ('a' as int) + 10
    } else {
        c as int - ('A' as int) + 10
    }
}

/// How many hexadecimal digits stand at `pos`, counted up to `cap`.
pub open spec fn hex_run_len(s: Seq<char>, pos: int, cap: int) -> int
    decreases cap,
{
    if cap <= 0 || pos < 0 || pos >= s.len() || !is_hex_digit(s[pos]) {
        0
    } else {
        1 + hex_run_len(s, pos + 1, cap - 1)
    }
}

/// The value of `n` hexadecimal digits starting at `pos`.
pub open spec fn hex_run_val(s: Seq<char>, pos: int, n: int) -> int
    decreases n,
{
    if n <= 0 {
        0
    } else {
        hex_run_val(s, pos, n - 1) * 16 + hex_val(s[pos + n - 1])
    }
}

/// How many decimal digits stand at `pos`, counted up to `cap`.
pub open spec fn dec_run_len(s: Seq<char>, pos: int, cap: int) -> int
    decreases cap,
{
    if cap <= 0 || pos < 0 || pos >= s.len() || !is_dec_digit(s[pos]) {
        0
    } else {
        1 + dec_run_len(s, pos + 1, cap - 1)
    }
}

/// The value of `n` decimal digits starting at `pos`.
pub open spec fn dec_run_val(s: Seq<char>, pos: int, n: int) -> int
    decreases n,
{
    if n <= 0 {
        0
    } else {
        dec_run_val(s, pos, n - 1) * 10 + dec_val(s[pos + n - 1])
    }
}

/// One group of the address text: one to four hex digits at `pos`. A run
/// of five or more digits is no group at all.
pub open spec fn scan_hex_group(s: Seq<char>, pos: int) -> Option<(int, int)> {
    let n = hex_run_len(s, pos, 5);
    if 1 <= n <= 4 {
        Some((hex_run_val(s, pos, n), pos + n))
    } else {
        None
    }
}

/// One octet of an embedded dotted quad at `pos`: one to three decimal
/// digits, no leading zero, value at most 255.
pub open spec fn scan_dec_octet(s: Seq<char>, pos: int) -> Option<(int, int)> {
    let n = dec_run_len(s, pos, 4);
    if 1 <= n <= 3 && !(n > 1 && s[pos] == '0') && dec_run_val(s, pos, n) <= 255 {
        Some((dec_run_val(s, pos, n), pos + n))
    } else {
        None
    }
}

/// An embedded dotted quad at `pos`: four octets separated by single dots,
/// yielding its two 16-bit groups.
pub open spec fn scan_embedded_v4(s: Seq<char>, pos: int) -> Option<(int, int, int)> {
    match scan_dec_octet(s, pos) {
        Some((a, p1)) => if p1 < s.len() && s[p1] == '.' {
            match scan_dec_octet(s, p1 + 1) {
                Some((b, p2)) => if p2 < s.len() && s[p2] == '.' {
                    match scan_dec_octet(s, p2 + 1) {
                        Some((c, p3)) => if p3 < s.len() && s[p3] == '.' {
                            match scan_dec_octet(s, p3 + 1) {
                                Some((d, p4)) => Some((a * 256 + b, c * 256 + d, p4)),
                                None => None,
                            }
                        } else {
                            None
                        },
                        None => None,
                    }
                } else {
                    None
                },
                None => None,
            }
        } else {
            None
        },
        None => None,
    }
}

/// What one run of group scanning produced: the group values in order,
/// where the scan stopped, and whether it ended on an embedded dotted
/// quad.
pub ghost struct GroupScan {
    pub groups: Seq<int>,
    pub end: int,
    pub embedded_v4: bool,
}

/// Scans up to `limit` groups from `pos`: every group but the first is
/// preceded by one colon; an embedded dotted quad is tried first wherever
/// two group slots remain and ends the scan.
pub open spec fn scan_groups(s: Seq<char>, pos: int, limit: int, first: bool) -> GroupScan
    decreases limit, 1int,
{
    if limit <= 0 {
        GroupScan { groups: Seq::empty(), end: pos, embedded_v4: false }
    } else {
        let q = if first {
            pos
        } else if 0 <= pos < s.len() && s[pos] == ':' {
            pos + 1
        } else {
            -1
        };
        if q < 0 {
            GroupScan { groups: Seq::empty(), end: pos, embedded_v4: false }
        } else {
            match scan_embedded_v4(s, q) {
                Some((hi, lo, end)) => if limit >= 2 {
                    GroupScan { groups: seq![hi, lo], end, embedded_v4: true }
                } else {
                    scan_one_hex(s, pos, q, limit)
                },
                None => scan_one_hex(s, pos, q, limit),
            }
        }
    }
}

/// One hex group at `q` followed by the rest of the scan; no group means
/// the scan stops at `pos`, before any colon that was peeked past.
pub open spec fn scan_one_hex(s: Seq<char>, pos: int, q: int, limit: int) -> GroupScan
    decreases limit, 0int,
{
    if limit <= 0 {
        GroupScan { groups: Seq::empty(), end: pos, embedded_v4: false }
    } else {
        match scan_hex_group(s, q) {
            Some((v, end)) => {
                let rest = scan_groups(s, end, limit - 1, false);
                GroupScan {
                    groups: seq![v] + rest.groups,
                    end: rest.end,
                    embedded_v4: rest.embedded_v4,
                }
            },
            None => GroupScan { groups: Seq::empty(), end: pos, embedded_v4: false },
        }
    }
}

/// The address eight group values denote.
pub open spec fn groups_to_address(g: Seq<int>) -> Ipv6Address {
    Ipv6Address {
        s0: g[0] as u16,
        s1: g[1] as u16,
        s2: g[2] as u16,
        s3: g[3] as u16,
        s4: g[4] as u16,
        s5: g[5] as u16,
        s6: g[6] as u16,
        s7: g[7] as u16,
    }
}

/// A sequence of `n` zero group values.
pub open spec fn zero_groups(n: int) -> Seq<int> {
    Seq::new(n as nat, |i: int| 0int)
}

/// What a version-6 address string denotes: eight groups outright, or a
/// head and a tail joined by one "::" standing for the elided zero groups
/// (at least one), the whole string consumed either way. An embedded
/// dotted quad may only end the address.
pub open spec fn parse_ipv6_text(s: Seq<char>) -> Option<Ipv6Address> {
    let head = scan_groups(s, 0, 8, true);
    if head.groups.len() == 8 {
        if head.end == s.len() {
            Some(groups_to_address(head.groups))
        } else {
            None
        }
    } else if head.embedded_v4 {
        None
    } else if head.end + 1 < s.len() && s[head.end] == ':' && s[head.end + 1] == ':' {
        let limit = 8 - head.groups.len() as int - 1;
        let tail = scan_groups(s, head.end + 2, limit, true);
        if tail.end == s.len() {
            Some(
                groups_to_address(
                    head.groups + zero_groups(8 - head.groups.len() - tail.groups.len())
                        + tail.groups,
                ),
            )
        } else {
            None
        }
    } else {
        None
    }
}

/// Powers of sixteen, for bounding hex digit strings.
pub open spec fn pow16(n: int) -> int
    decreases n,
{
    if n <= 0 {
        1
    } else {
        16 * pow16(n - 1)
    }
}

/// A digit run is maximal: everything inside it is a digit and it ends at
/// the cap, the end of the string, or a non-digit.
proof fn lemma_hex_run_len(s: Seq<char>, pos: int, cap: int)
    requires
        0 <= pos <= s.len(),
        0 <= cap,
    ensures
        ({
            let n = hex_run_len(s, pos, cap);
            0 <= n <= cap && pos + n <= s.len() && (forall|j: int|
                pos <= j < pos + n ==> is_hex_digit(s[j])) && (n < cap ==> (pos + n >= s.len()
                || !is_hex_digit(s[pos + n])))
        }),
    decreases cap,
{
    if cap > 0 && pos < s.len() && is_hex_digit(s[pos]) {
        lemma_hex_run_len(s, pos + 1, cap - 1);
    }
}

/// The same, for decimal digit runs.
proof fn lemma_dec_run_len(s: Seq<char>, pos: int, cap: int)
    requires
        0 <= pos <= s.len(),
        0 <= cap,
    ensures
        ({
            let n = dec_run_len(s, pos, cap);
            0 <= n <= cap && pos + n <= s.len() && (forall|j: int|
                pos <= j < pos + n ==> is_dec_digit(s[j])) && (n < cap ==> (pos + n >= s.len()
                || !is_dec_digit(s[pos + n])))
        }),
    decreases cap,
{
    if cap > 0 && pos < s.len() && is_dec_digit(s[pos]) {
        lemma_dec_run_len(s, pos + 1, cap - 1);
    }
}

/// Counts the digits at `pos`, up to `cap` of them.
fn hex_run_len_exec(s: &str, len: usize, pos: usize, cap: usize) -> (n: usize)
    requires
        pos <= len,
        len == s@.len(),
    ensures
        n == hex_run_len(s@, pos as int, cap as int),
        pos + n <= len,
{
    proof {
        lemma_hex_run_len(s@, pos as int, cap as int);
    }
    let ghost spec_n = hex_run_len(s@, pos as int, cap as int);
    let mut i: usize = pos;
    while i < len && i - pos < cap
        invariant
            pos <= i <= len,
            i - pos <= cap,
            len == s@.len(),
            forall|j: int| pos <= j < i ==> is_hex_digit(s@[j]),
            i - pos <= spec_n,
            spec_n == hex_run_len(s@, pos as int, cap as int),
            0 <= spec_n <= cap,
            pos + spec_n <= len,
            spec_n < cap ==> (pos + spec_n >= len || !is_hex_digit(s@[pos + spec_n])),
            forall|j: int| pos <= j < pos + spec_n ==> is_hex_digit(s@[j]),
        decreases len - i,
    {
        let c = s.get_char(i);
        let cu = c as u32;
        let hex = (cu >= 48 && cu <= 57) || (cu >= 97 && cu <= 102) || (cu >= 65 && cu <= 70);
        if !hex {
            proof {
                assert(!is_hex_digit(s@[i as int]));
                assert(i - pos >= spec_n);
            }
            return i - pos;
        }
        i = i + 1;
    }
    proof {
        assert(i - pos >= spec_n);
    }
    i - pos
}

/// Counts the decimal digits at `pos`, up to `cap` of them.
fn dec_run_len_exec(s: &str, len: usize, pos: usize, cap: usize) -> (n: usize)
    requires
        pos <= len,
        len == s@.len(),
    ensures
        n == dec_run_len(s@, pos as int, cap as int),
        pos + n <= len,
{
    proof {
        lemma_dec_run_len(s@, pos as int, cap as int);
    }
    let ghost spec_n = dec_run_len(s@, pos as int, cap as int);
    let mut i: usize = pos;
    while i < len && i - pos < cap
        invariant
            pos <= i <= len,
            i - pos <= cap,
            len == s@.len(),
            forall|j: int| pos <= j < i ==> is_dec_digit(s@[j]),
            i - pos <= spec_n,
            spec_n == dec_run_len(s@, pos as int, cap as int),
            0 <= spec_n <= cap,
            pos + spec_n <= len,
            spec_n < cap ==> (pos + spec_n >= len || !is_dec_digit(s@[pos + spec_n])),
            forall|j: int| pos <= j < pos + spec_n ==> is_dec_digit(s@[j]),
        decreases len - i,
    {
        let c = s.get_char(i);
        let cu = c as u32;
        if !(cu >= 48 && cu <= 57) {
            proof {
                assert(!is_dec_digit(s@[i as int]));
                assert(i - pos >= spec_n);
            }
            return i - pos;
        }
        i = i + 1;
    }
    proof {
        assert(i - pos >= spec_n);
    }
    i - pos
}

/// Reads one hex group at `pos`.
fn scan_hex_group_exec(s: &str, len: usize, pos: usize) -> (r: Option<(u16, usize)>)
    requires
        pos <= len,
        len == s@.len(),
    ensures
        match r {
            Some(p) => scan_hex_group(s@, pos as int) == Some((p.0 as int, p.1 as int)) && pos
                < p.1 <= len,
            None => scan_hex_group(s@, pos as int) is None,
        },
{
    let n = hex_run_len_exec(s, len, pos, 5);
    if n < 1 || n > 4 {
        return None;
    }
    proof {
        lemma_hex_run_len(s@, pos as int, 5);
        assert(pow16(0) == 1);
        assert(pow16(1) == 16);
        assert(pow16(2) == 256);
        assert(pow16(3) == 4096);
        assert(pow16(4) == 65536);
    }
    let mut val: u32 = 0;
    let mut j: usize = 0;
    while j < n
        invariant
            0 <= j <= n,
            1 <= n <= 4,
            pos + n <= len,
            len == s@.len(),
            forall|k: int| pos <= k < pos + n ==> is_hex_digit(s@[k]),
            val == hex_run_val(s@, pos as int, j as int),
            val < pow16(j as int),
            pow16(1) == 16 && pow16(2) == 256 && pow16(3) == 4096 && pow16(4) == 65536,
        decreases n - j,
    {
        let c = s.get_char(pos + j);
        let cu = c as u32;
        let d: u32 = if cu >= 48 && cu <= 57 {
            cu - 48
        } else if cu >= 97 && cu <= 102 {
            cu - 97 + 10
        } else {
            cu - 65 + 10
        };
        proof {
            assert(is_hex_digit(s@[pos + j]));
            assert(d == hex_val(s@[pos + j]));
        }
        val = val * 16 + d;
        j = j + 1;
    }
    Some((val as u16, pos + n))
}

/// Reads one decimal octet of an embedded dotted quad at `pos`.
fn scan_dec_octet_exec(s: &str, len: usize, pos: usize) -> (r: Option<(u8, usize)>)
    requires
        pos <= len,
        len == s@.len(),
    ensures
        match r {
            Some(p) => scan_dec_octet(s@, pos as int) == Some((p.0 as int, p.1 as int)) && pos
                < p.1 <= len,
            None => scan_dec_octet(s@, pos as int) is None,
        },
{
    let n = dec_run_len_exec(s, len, pos, 4);
    if n < 1 || n > 3 {
        return None;
    }
    proof {
        lemma_dec_run_len(s@, pos as int, 4);
    }
    if n > 1 && s.get_char(pos) == '0' {
        return None;
    }
    let mut val: u32 = 0;
    let mut j: usize = 0;
    while j < n
        invariant
            0 <= j <= n,
            1 <= n <= 3,
            pos + n <= len,
            len == s@.len(),
            forall|k: int| pos <= k < pos + n ==> is_dec_digit(s@[k]),
            val == dec_run_val(s@, pos as int, j as int),
            val < pow10(j as int),
        decreases n - j,
    {
        let c = s.get_char(pos + j);
        let cu = c as u32;
        proof {
            assert(is_dec_digit(s@[pos + j]));
            assert(cu - 48 == dec_val(s@[pos + j]));
            assert(pow10(0) == 1);
            assert(pow10(1) == 10);
            assert(pow10(2) == 100);
            assert(pow10(3) == 1000);
        }
        val = val * 10 + (cu - 48);
        j = j + 1;
    }
    if val > 255 {
        return None;
    }
    Some((val as u8, pos + n))
}

/// Reads an embedded dotted quad at `pos`.
fn scan_embedded_v4_exec(s: &str, len: usize, pos: usize) -> (r: Option<(u16, u16, usize)>)
    requires
        pos <= len,
        len == s@.len(),
    ensures
        match r {
            Some(p) => scan_embedded_v4(s@, pos as int) == Some(
                (p.0 as int, p.1 as int, p.2 as int),
            ) && pos < p.2 <= len,
            None => scan_embedded_v4(s@, pos as int) is None,
        },
{
    let (a, p1) = match scan_dec_octet_exec(s, len, pos) {
        Some(p) => p,
        None => {
            return None;
        },
    };
    if !(p1 < len && s.get_char(p1) == '.') {
        return None;
    }
    let (b, p2) = match scan_dec_octet_exec(s, len, p1 + 1) {
        Some(p) => p,
        None => {
            return None;
        },
    };
    if !(p2 < len && s.get_char(p2) == '.') {
        return None;
    }
    let (c, p3) = match scan_dec_octet_exec(s, len, p2 + 1) {
        Some(p) => p,
        None => {
            return None;
        },
    };
    if !(p3 < len && s.get_char(p3) == '.') {
        return None;
    }
    let (d, p4) = match scan_dec_octet_exec(s, len, p3 + 1) {
        Some(p) => p,
        None => {
            return None;
        },
    };
    let hi = (a as u32) * 256 + (b as u32);
    let lo = (c as u32) * 256 + (d as u32);
    Some((hi as u16, lo as u16, p4))
}

/// Scans up to `limit` groups from `pos`.
fn scan_groups_exec(s: &str, len: usize, pos: usize, limit: usize, first: bool) -> (r: (
    Vec<u16>,
    usize,
    bool,
))
    requires
        pos <= len,
        len == s@.len(),
        limit <= 8,
    ensures
        ({
            let g = scan_groups(s@, pos as int, limit as int, first);
            &&& r.0@.len() == g.groups.len()
            &&& (forall|i: int| 0 <= i < r.0@.len() ==> r.0@[i] as int == g.groups[i])
            &&& r.1 == g.end
            &&& r.2 == g.embedded_v4
            &&& pos <= r.1 <= len
            &&& r.0@.len() <= limit
        }),
    decreases limit,
{
    if limit == 0 {
        return (Vec::new(), pos, false);
    }
    let q = if first {
        pos
    } else if pos < len && s.get_char(pos) == ':' {
        pos + 1
    } else {
        return (Vec::new(), pos, false);
    };
    if limit >= 2 {
        if let Some((hi, lo, end)) = scan_embedded_v4_exec(s, len, q) {
            let mut groups: Vec<u16> = Vec::new();
            groups.push(hi);
            groups.push(lo);
            proof {
                assert(groups@.len() == 2);
            }
            return (groups, end, true);
        }
    }
    match scan_hex_group_exec(s, len, q) {
        Some((v, end)) => {
            let (mut rest, rest_end, rest_v4) = scan_groups_exec(s, len, end, limit - 1, false);
            rest.insert(0, v);
            (rest, rest_end, rest_v4)
        },
        None => (Vec::new(), pos, false),
    }
}

/// Parses a version-6 address string, accepting exactly the strings that
/// `parse_ipv6_text` accepts.
pub fn parse_ipv6(s: &str) -> (r: Option<Ipv6Address>)
    ensures
        r == parse_ipv6_text(s@),
{
    let len = s.unicode_len();
    let (head, head_end, head_v4) = scan_groups_exec(s, len, 0, 8, true);
    let ghost head_spec = scan_groups(s@, 0, 8, true);
    if head.len() == 8 {
        if head_end == len {
            let addr = Ipv6Address {
                s0: head[0],
                s1: head[1],
                s2: head[2],
                s3: head[3],
                s4: head[4],
                s5: head[5],
                s6: head[6],
                s7: head[7],
            };
            proof {
                assert(parse_ipv6_text(s@) == Some(groups_to_address(head_spec.groups)));
            }
            return Some(addr);
        } else {
            return None;
        }
    }
    if head_v4 {
        return None;
    }
    if !(head_end < len && head_end + 1 < len && s.get_char(head_end) == ':' && s.get_char(
        head_end + 1,
    ) == ':') {
        return None;
    }
    let limit = 8 - head.len() - 1;
    let (tail, tail_end, _) = scan_groups_exec(s, len, head_end + 2, limit, true);
    let ghost tail_spec = scan_groups(s@, head_end + 2 as int, limit as int, true);
    if tail_end != len {
        return None;
    }
    let ghost all = head_spec.groups + zero_groups(8 - head_spec.groups.len() - tail_spec.groups.len())
        + tail_spec.groups;
    let zeros = 8 - head.len() - tail.len();
    let mut full: Vec<u16> = Vec::new();
    let mut i: usize = 0;
    while i < head.len()
        invariant
            0 <= i <= head@.len(),
            full@.len() == i,
            forall|k: int| 0 <= k < i ==> full@[k] == head@[k],
        decreases head@.len() - i,
    {
        full.push(head[i]);
        i = i + 1;
    }
    let mut z: usize = 0;
    while z < zeros
        invariant
            0 <= z <= zeros,
            zeros == 8 - head@.len() - tail@.len(),
            head@.len() + tail@.len() <= 8,
            full@.len() == head@.len() + z,
            forall|k: int| 0 <= k < head@.len() ==> full@[k] == head@[k],
            forall|k: int| head@.len() <= k < full@.len() ==> full@[k] == 0u16,
        decreases zeros - z,
    {
        full.push(0u16);
        z = z + 1;
    }
    let mut t: usize = 0;
    while t < tail.len()
        invariant
            0 <= t <= tail@.len(),
            full@.len() == head@.len() + (8 - head@.len() - tail@.len()) + t,
            head@.len() + tail@.len() <= 8,
            forall|k: int| 0 <= k < head@.len() ==> full@[k] == head@[k],
            forall|k: int|
                head@.len() <= k < 8 - tail@.len() ==> full@[k] == 0u16,
            forall|k: int|
                8 - tail@.len() <= k < full@.len() ==> full@[k] == tail@[k - (8 - tail@.len())],
        decreases tail@.len() - t,
    {
        full.push(tail[t]);
        t = t + 1;
    }
    proof {
        assert(full@.len() == 8);
        assert forall|k: int| 0 <= k < 8 implies full@[k] as int == all[k] by {
            if k < head_spec.groups.len() {
            } else if k < 8 - tail_spec.groups.len() {
                assert(all[k] == zero_groups(
                    8 - head_spec.groups.len() - tail_spec.groups.len(),
                )[k - head_spec.groups.len()]);
            } else {
                assert(all[k] == tail_spec.groups[k - (8 - tail_spec.groups.len())]);
            }
        }
        assert(parse_ipv6_text(s@) == Some(groups_to_address(all)));
    }
    Some(
        Ipv6Address {
            s0: full[0],
            s1: full[1],
            s2: full[2],
            s3: full[3],
            s4: full[4],
            s5: full[5],
            s6: full[6],
            s7: full[7],
        },
    )
}

/// The lower-case character for a hex digit value.
pub open spec fn hex_char(d: int) -> char {
    if d <= 9 {
        ((('0' as int) + d) as u8) as char
    } else {
        ((('a' as int) + d - 10) as u8) as char
    }
}

/// The hex digit string of a non-negative number, no leading zeros.
pub open spec fn hex_digits_text(n: int) -> Seq<char>
    decreases n,
{
    if n <= 15 {
        seq![hex_char(n)]
    } else {
        hex_digits_text(n / 16).push(hex_char(n % 16))
    }
}

/// The value of a hex digit string, most significant digit first.
pub open spec fn hexseq_val(t: Seq<char>) -> int
    decreases t.len(),
{
    if t.len() == 0 {
        0
    } else {
        hexseq_val(t.drop_last()) * 16 + hex_val(t.last())
    }
}

/// Hex digit strings hold hex digits only, are short for 16-bit values,
/// and evaluate back to their number.
proof fn lemma_hex_digits_text(n: int)
    requires
        0 <= n,
    ensures
        forall|j: int| 0 <= j < hex_digits_text(n).len() ==> is_hex_digit(#[trigger] hex_digits_text(n)[j]),
        hex_digits_text(n).len() >= 1,
        hexseq_val(hex_digits_text(n)) == n,
        n < 16 ==> hex_digits_text(n).len() == 1,
        n < 256 ==> hex_digits_text(n).len() <= 2,
        n < 4096 ==> hex_digits_text(n).len() <= 3,
        n < 65536 ==> hex_digits_text(n).len() <= 4,
    decreases n,
{
    if n <= 15 {
        let t = hex_digits_text(n);
        assert(t =~= seq![hex_char(n)]);
        assert(hex_char(n) as int == if n <= 9 {
            ('0' as int) + n
        } else {
            ('a' as int) + n - 10
        });
        assert(is_hex_digit(hex_char(n)));
        assert(t.drop_last() =~= Seq::<char>::empty());
        assert(hexseq_val(t.drop_last()) == 0);
        assert(t.last() == hex_char(n));
        assert(hex_val(hex_char(n)) == n);
    } else {
        lemma_hex_digits_text(n / 16);
        let t = hex_digits_text(n);
        let h = hex_digits_text(n / 16);
        assert(t =~= h.push(hex_char(n % 16)));
        assert(t.drop_last() =~= h);
        assert(hex_char(n % 16) as int == if n % 16 <= 9 {
            ('0' as int) + n % 16
        } else {
            ('a' as int) + n % 16 - 10
        });
        assert(is_hex_digit(hex_char(n % 16)));
        assert(hex_val(hex_char(n % 16)) == n % 16);
        assert(hexseq_val(t) == hexseq_val(h) * 16 + n % 16);
        assert forall|j: int| 0 <= j < t.len() implies is_hex_digit(t[j]) by {
            if j < h.len() {
                assert(t[j] == h[j]);
            }
        }
    }
}

/// A hex digit run of known extent scans as one group of its value.
proof fn lemma_hex_group_at(s: Seq<char>, q: int, t: Seq<char>)
    requires
        0 <= q,
        q + t.len() <= s.len(),
        s.subrange(q, q + t.len() as int) == t,
        1 <= t.len() <= 4,
        forall|j: int| 0 <= j < t.len() ==> is_hex_digit(t[j]),
        q + t.len() == s.len() || !is_hex_digit(s[q + t.len()]),
    ensures
        scan_hex_group(s, q) == Some((hexseq_val(t), q + t.len() as int)),
    decreases t.len(),
{
    lemma_hex_run_len(s, q, 5);
    let n = hex_run_len(s, q, 5);
    let m = t.len() as int;
    assert forall|j: int| q <= j < q + m implies is_hex_digit(s[j]) by {
        assert(s[j] == t[j - q]);
    }
    if n < m {
        assert(n < 5);
        assert(is_hex_digit(s[q + n]));
        assert(false);
    }
    if m < n {
        assert(is_hex_digit(s[q + m]));
        assert(false);
    }
    lemma_hex_run_val_eq(s, q, t, m);
}

/// A run's positional value equals the value of its digit string.
proof fn lemma_hex_run_val_eq(s: Seq<char>, q: int, t: Seq<char>, m: int)
    requires
        0 <= q,
        0 <= m == t.len(),
        q + m <= s.len(),
        s.subrange(q, q + m) == t,
    ensures
        hex_run_val(s, q, m) == hexseq_val(t),
    decreases m,
{
    if m > 0 {
        assert(t.drop_last() =~= s.subrange(q, q + m - 1));
        lemma_hex_run_val_eq(s, q, t.drop_last(), m - 1);
        assert(t.last() == s[q + m - 1]);
    }
}

/// A string without dots holds no embedded dotted quad.
proof fn lemma_no_dots_no_v4(s: Seq<char>, pos: int)
    requires
        forall|j: int| 0 <= j < s.len() ==> s[j] != '.',
    ensures
        scan_embedded_v4(s, pos) is None,
{
}

/// The uncompressed text of a version-6 address: its eight groups in hex,
/// no leading zeros, separated by single colons.
pub open spec fn ipv6_text(a: Ipv6Address) -> Seq<char> {
    hex_digits_text(a.s0 as int) + seq![':'] + hex_digits_text(a.s1 as int) + seq![':']
        + hex_digits_text(a.s2 as int) + seq![':'] + hex_digits_text(a.s3 as int) + seq![':']
        + hex_digits_text(a.s4 as int) + seq![':'] + hex_digits_text(a.s5 as int) + seq![':']
        + hex_digits_text(a.s6 as int) + seq![':'] + hex_digits_text(a.s7 as int)
}

/// Whether no character of `s` is a dot.
pub open spec fn no_dots(s: Seq<char>) -> bool {
    forall|j: int| 0 <= j < s.len() ==> s[j] != '.'
}

/// Dotless parts concatenate to a dotless string.
proof fn lemma_no_dots_concat(x: Seq<char>, y: Seq<char>)
    requires
        no_dots(x),
        no_dots(y),
    ensures
        no_dots(x + y),
{
    assert forall|j: int| 0 <= j < (x + y).len() implies (x + y)[j] != '.' by {
        if j < x.len() {
            assert((x + y)[j] == x[j]);
        } else {
            assert((x + y)[j] == y[j - x.len()]);
        }
    }
}

/// Hex digit strings hold no dots.
proof fn lemma_hex_text_no_dots(n: int)
    requires
        0 <= n,
    ensures
        no_dots(hex_digits_text(n)),
{
    lemma_hex_digits_text(n);
    assert forall|j: int| 0 <= j < hex_digits_text(n).len() implies hex_digits_text(n)[j]
        != '.' by {
        assert(is_hex_digit(hex_digits_text(n)[j]));
    }
}

/// One scan step over a formatted group: at `pos`, an optional colon, the
/// group's digits, and the rest; the scan reads the group and goes on.
proof fn lemma_scan_formatted_step(
    s: Seq<char>,
    pos: int,
    limit: int,
    first: bool,
    g: Seq<char>,
    v: int,
)
    requires
        1 <= limit,
        no_dots(s),
        0 <= pos,
        ({
            let q = if first {
                pos
            } else {
                pos + 1
            };
            &&& (!first ==> pos < s.len() && s[pos] == ':')
            &&& q + g.len() <= s.len()
            &&& s.subrange(q, q + g.len() as int) == g
            &&& 1 <= g.len() <= 4
            &&& (forall|j: int| 0 <= j < g.len() ==> is_hex_digit(g[j]))
            &&& hexseq_val(g) == v
            &&& (q + g.len() == s.len() || !is_hex_digit(s[q + g.len()]))
        }),
    ensures
        ({
            let q = if first {
                pos
            } else {
                pos + 1
            };
            let rest = scan_groups(s, q + g.len() as int, limit - 1, false);
            scan_groups(s, pos, limit, first) == GroupScan {
                groups: seq![v] + rest.groups,
                end: rest.end,
                embedded_v4: rest.embedded_v4,
            }
        }),
{
    let q = if first {
        pos
    } else {
        pos + 1
    };
    lemma_no_dots_no_v4(s, q);
    lemma_hex_group_at(s, q, g);
}

/// Printing an address and parsing the result yields the address back.
#[verifier::rlimit(100)]
pub proof fn lemma_ipv6_round_trip(a: Ipv6Address)
    ensures
        parse_ipv6_text(ipv6_text(a)) == Some(a),
{
    let t = ipv6_text(a);
    let h0 = hex_digits_text(a.s0 as int);
    let h1 = hex_digits_text(a.s1 as int);
    let h2 = hex_digits_text(a.s2 as int);
    let h3 = hex_digits_text(a.s3 as int);
    let h4 = hex_digits_text(a.s4 as int);
    let h5 = hex_digits_text(a.s5 as int);
    let h6 = hex_digits_text(a.s6 as int);
    let h7 = hex_digits_text(a.s7 as int);
    lemma_hex_digits_text(a.s0 as int);
    lemma_hex_digits_text(a.s1 as int);
    lemma_hex_digits_text(a.s2 as int);
    lemma_hex_digits_text(a.s3 as int);
    lemma_hex_digits_text(a.s4 as int);
    lemma_hex_digits_text(a.s5 as int);
    lemma_hex_digits_text(a.s6 as int);
    lemma_hex_digits_text(a.s7 as int);
    lemma_hex_text_no_dots(a.s0 as int);
    lemma_hex_text_no_dots(a.s1 as int);
    lemma_hex_text_no_dots(a.s2 as int);
    lemma_hex_text_no_dots(a.s3 as int);
    lemma_hex_text_no_dots(a.s4 as int);
    lemma_hex_text_no_dots(a.s5 as int);
    lemma_hex_text_no_dots(a.s6 as int);
    lemma_hex_text_no_dots(a.s7 as int);
    let colon = seq![':'];
    assert(no_dots(colon));
    lemma_no_dots_concat(h0, colon);
    lemma_no_dots_concat(h0 + colon, h1);
    lemma_no_dots_concat(h0 + colon + h1, colon);
    lemma_no_dots_concat(h0 + colon + h1 + colon, h2);
    lemma_no_dots_concat(h0 + colon + h1 + colon + h2, colon);
    lemma_no_dots_concat(h0 + colon + h1 + colon + h2 + colon, h3);
    lemma_no_dots_concat(h0 + colon + h1 + colon + h2 + colon + h3, colon);
    lemma_no_dots_concat(h0 + colon + h1 + colon + h2 + colon + h3 + colon, h4);
    lemma_no_dots_concat(h0 + colon + h1 + colon + h2 + colon + h3 + colon + h4, colon);
    lemma_no_dots_concat(h0 + colon + h1 + colon + h2 + colon + h3 + colon + h4 + colon, h5);
    lemma_no_dots_concat(
        h0 + colon + h1 + colon + h2 + colon + h3 + colon + h4 + colon + h5,
        colon,
    );
    lemma_no_dots_concat(
        h0 + colon + h1 + colon + h2 + colon + h3 + colon + h4 + colon + h5 + colon,
        h6,
    );
    lemma_no_dots_concat(
        h0 + colon + h1 + colon + h2 + colon + h3 + colon + h4 + colon + h5 + colon + h6,
        colon,
    );
    lemma_no_dots_concat(
        h0 + colon + h1 + colon + h2 + colon + h3 + colon + h4 + colon + h5 + colon + h6 + colon,
        h7,
    );
    assert(no_dots(t));
    let q0: int = 0;
    let e0 = q0 + h0.len() as int;
    let q1 = e0 + 1;
    let e1 = q1 + h1.len() as int;
    let q2 = e1 + 1;
    let e2 = q2 + h2.len() as int;
    let q3 = e2 + 1;
    let e3 = q3 + h3.len() as int;
    let q4 = e3 + 1;
    let e4 = q4 + h4.len() as int;
    let q5 = e4 + 1;
    let e5 = q5 + h5.len() as int;
    let q6 = e5 + 1;
    let e6 = q6 + h6.len() as int;
    let q7 = e6 + 1;
    let e7 = q7 + h7.len() as int;
    assert(t.len() == e7);
    assert(t.subrange(q0, e0) =~= h0);
    assert(t.subrange(q1, e1) =~= h1);
    assert(t.subrange(q2, e2) =~= h2);
    assert(t.subrange(q3, e3) =~= h3);
    assert(t.subrange(q4, e4) =~= h4);
    assert(t.subrange(q5, e5) =~= h5);
    assert(t.subrange(q6, e6) =~= h6);
    assert(t.subrange(q7, e7) =~= h7);
    assert(t[e0] == ':');
    assert(t[e1] == ':');
    assert(t[e2] == ':');
    assert(t[e3] == ':');
    assert(t[e4] == ':');
    assert(t[e5] == ':');
    assert(t[e6] == ':');
    assert(!is_hex_digit(':'));
    lemma_scan_formatted_step(t, q0, 8, true, h0, a.s0 as int);
    lemma_scan_formatted_step(t, e0, 7, false, h1, a.s1 as int);
    lemma_scan_formatted_step(t, e1, 6, false, h2, a.s2 as int);
    lemma_scan_formatted_step(t, e2, 5, false, h3, a.s3 as int);
    lemma_scan_formatted_step(t, e3, 4, false, h4, a.s4 as int);
    lemma_scan_formatted_step(t, e4, 3, false, h5, a.s5 as int);
    lemma_scan_formatted_step(t, e5, 2, false, h6, a.s6 as int);
    lemma_scan_formatted_step(t, e6, 1, false, h7, a.s7 as int);
    let head = scan_groups(t, 0, 8, true);
    assert(scan_groups(t, e7, 0, false) == GroupScan {
        groups: Seq::<int>::empty(),
        end: e7,
        embedded_v4: false,
    });
    assert(head.end == e7);
    assert(head.groups =~= seq![
        a.s0 as int,
        a.s1 as int,
        a.s2 as int,
        a.s3 as int,
        a.s4 as int,
        a.s5 as int,
        a.s6 as int,
        a.s7 as int,
    ]);
    assert(parse_ipv6_text(t) == Some(groups_to_address(head.groups)));
    assert(groups_to_address(head.groups) == a);
}

/// The one-character string for a hex digit value.
fn hex_digit_str(d: u8) -> (r: &'static str)
    requires
        d < 16,
    ensures
        r@ == seq![hex_char(d as int)],
{
    proof {
        reveal_strlit("0");
        reveal_strlit("1");
        reveal_strlit("2");
        reveal_strlit("3");
        reveal_strlit("4");
        reveal_strlit("5");
        reveal_strlit("6");
        reveal_strlit("7");
        reveal_strlit("8");
        reveal_strlit("9");
        reveal_strlit("a");
        reveal_strlit("b");
        reveal_strlit("c");
        reveal_strlit("d");
        reveal_strlit("e");
        reveal_strlit("f");
    }
    match d {
        0 => "0",
        1 => "1",
        2 => "2",
        3 => "3",
        4 => "4",
        5 => "5",
        6 => "6",
        7 => "7",
        8 => "8",
        9 => "9",
        10 => "a",
        11 => "b",
        12 => "c",
        13 => "d",
        14 => "e",
        _ => "f",
    }
}

/// Appends the hex digits of `n` to `s`.
fn push_hex(s: &mut String, n: u16)
    ensures
        final(s)@ == old(s)@ + hex_digits_text(n as int),
    decreases n,
{
    if n >= 16 {
        push_hex(s, n / 16);
        s.append(hex_digit_str((n % 16) as u8));
        proof {
            assert(s@ =~= old(s)@ + hex_digits_text(n as int));
        }
    } else {
        s.append(hex_digit_str(n as u8));
        proof {
            assert(s@ =~= old(s)@ + hex_digits_text(n as int));
        }
    }
}

/// The uncompressed string of a version-6 address.
pub fn ipv6_string(a: &Ipv6Address) -> (r: String)
    ensures
        r@ == ipv6_text(*a),
{
    proof {
        reveal_strlit(":");
    }
    let mut s = String::new();
    push_hex(&mut s, a.s0);
    s.append(":");
    push_hex(&mut s, a.s1);
    s.append(":");
    push_hex(&mut s, a.s2);
    s.append(":");
    push_hex(&mut s, a.s3);
    s.append(":");
    push_hex(&mut s, a.s4);
    s.append(":");
    push_hex(&mut s, a.s5);
    s.append(":");
    push_hex(&mut s, a.s6);
    s.append(":");
    push_hex(&mut s, a.s7);
    proof {
        assert(s@ =~= ipv6_text(*a));
    }
    s
}

} // verus!
