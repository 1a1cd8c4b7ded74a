//! Addresses and their textual form. An address is held as plain numeric
//! fields tagged with its family. The dotted-quad text form used by the
//! providers' record contents is given an exact specification, and the
//! parser and formatter here are proved against it.

use vstd::prelude::*;
use vstd::string::StrSliceExecFns;
use vstd::string::StringExecFns;

verus! {

/// An IP family.
#[derive(Clone, Copy, Debug, PartialEq, Eq, PartialOrd, Ord, Hash, Structural)]
pub enum IpType {
    V4,
    V6,
}

/// A version-4 address as its four octets.
#[derive(Clone, Copy, Debug, PartialEq, Eq, Hash, Structural)]
pub struct Ipv4Address {
    pub o0: u8,
    pub o1: u8,
    pub o2: u8,
    pub o3: u8,
}

/// A version-6 address as its eight 16-bit segments.
#[derive(Clone, Copy, Debug, PartialEq, Eq, Hash, Structural)]
pub struct Ipv6Address {
    pub s0: u16,
    pub s1: u16,
    pub s2: u16,
    pub s3: u16,
    pub s4: u16,
    pub s5: u16,
    pub s6: u16,
    pub s7: u16,
}

/// An address of either family.
#[derive(Clone, Copy, Debug, PartialEq, Eq, Hash, Structural)]
pub enum IpAddress {
    V4(Ipv4Address),
    V6(Ipv6Address),
}

impl IpAddress {
    /// The family an address belongs to.
    pub open spec fn spec_family(&self) -> IpType {
        match *self {
            IpAddress::V4(_) => IpType::V4,
            IpAddress::V6(_) => IpType::V6,
        }
    }

    /// The family an address belongs to.
    #[verifier::when_used_as_spec(spec_family)]
    pub fn family(&self) -> (t: IpType)
        ensures
            t == self.spec_family(),
    {
        match self {
            IpAddress::V4(_) => IpType::V4,
            IpAddress::V6(_) => IpType::V6,
        }
    }
}

impl IpType {
    /// The DNS record type that stores addresses of this family.
    pub fn record_type(&self) -> (r: &'static str)
        ensures
            *self == IpType::V4 ==> r@ == "A"@,
            *self == IpType::V6 ==> r@ == "AAAA"@,
    {
        match self {
            IpType::V4 => "A",
            IpType::V6 => "AAAA",
        }
    }
}

/// Whether `c` is a decimal digit.
pub open spec fn is_dec_digit(c: char) -> bool {
    ('0' as int) <= (c as int) && (c as int) <= ('9' as int)
}

/// The value of a decimal digit.
pub open spec fn dec_val(c: char) -> int {
    c as int - ('0' as int)
}

/// The digit character for a value below ten.
pub open spec fn dec_char(d: int) -> char {
    ((('0' as int) + d) as u8) as char
}

/// The value of a digit string, most significant digit first.
pub open spec fn dec_seq_val(s: Seq<char>) -> int
    decreases s.len(),
{
    if s.len() == 0 {
        0
    } else {
        dec_seq_val(s.drop_last()) * 10 + dec_val(s.last())
    }
}

/// Whether every character of `s` is a decimal digit.
pub open spec fn all_dec_digits(s: Seq<char>) -> bool {
    forall|i: int| 0 <= i < s.len() ==> is_dec_digit(s[i])
}

/// A valid textual octet: one to three digits, no leading zero, value at
/// most 255.
pub open spec fn valid_octet_text(s: Seq<char>) -> bool {
    1 <= s.len() <= 3 && all_dec_digits(s) && (s.len() > 1 ==> s[0] != '0') && dec_seq_val(s)
        <= 255
}

/// The position of the first occurrence of `c` in `s`, or -1 when absent.
pub open spec fn find_char(s: Seq<char>, c: char) -> int
    decreases s.len(),
{
    if s.len() == 0 {
        -1
    } else if s[0] == c {
        0
    } else {
        let r = find_char(s.drop_first(), c);
        if r < 0 {
            -1
        } else {
            r + 1
        }
    }
}

/// `s` split at every '.', dots removed.
pub open spec fn split_dots(s: Seq<char>) -> Seq<Seq<char>>
    decreases s.len(),
{
    let i = find_char(s, '.');
    if 0 <= i < s.len() {
        seq![s.take(i)] + split_dots(s.skip(i + 1))
    } else {
        seq![s]
    }
}

/// What a dotted-quad string denotes: four valid octets separated by
/// single dots, or nothing.
pub open spec fn parse_ipv4_text(s: Seq<char>) -> Option<Ipv4Address> {
    let ps = split_dots(s);
    if ps.len() == 4 && valid_octet_text(ps[0]) && valid_octet_text(ps[1]) && valid_octet_text(
        ps[2],
    ) && valid_octet_text(ps[3]) {
        Some(
            Ipv4Address {
                o0: dec_seq_val(ps[0]) as u8,
                o1: dec_seq_val(ps[1]) as u8,
                o2: dec_seq_val(ps[2]) as u8,
                o3: dec_seq_val(ps[3]) as u8,
            },
        )
    } else {
        None
    }
}

/// `find_char` returns the first occurrence: a hit is in bounds, matches,
/// and nothing before it matches; a miss means no character matches.
pub proof fn lemma_find_char(s: Seq<char>, c: char)
    ensures
        find_char(s, c) == -1 ==> (forall|j: int| 0 <= j < s.len() ==> s[j] != c),
        find_char(s, c) != -1 ==> 0 <= find_char(s, c) < s.len() && s[find_char(s, c)] == c && (
        forall|j: int| 0 <= j < find_char(s, c) ==> s[j] != c),
    decreases s.len(),
{
    if s.len() > 0 && s[0] != c {
        lemma_find_char(s.drop_first(), c);
        let r = find_char(s.drop_first(), c);
        if r >= 0 {
            assert forall|j: int| 1 <= j < r + 1 implies s[j] != c by {
                assert(s.drop_first()[j - 1] == s[j]);
            }
        } else {
            assert forall|j: int| 1 <= j < s.len() implies s[j] != c by {
                assert(s.drop_first()[j - 1] == s[j]);
            }
        }
    }
}

/// Splitting never yields an empty list of parts.
pub proof fn lemma_split_dots_nonempty(s: Seq<char>)
    ensures
        split_dots(s).len() >= 1,
    decreases s.len(),
{
    let i = find_char(s, '.');
    if 0 <= i < s.len() {
        lemma_split_dots_nonempty(s.skip(i + 1));
    }
}

/// If the first dot of `s` stands at `p`, `split_dots` begins with the
/// prefix before `p` and continues in the remainder after it.
pub proof fn lemma_split_dots_step(s: Seq<char>, p: int)
    requires
        0 <= p < s.len(),
        s[p] == '.',
        forall|j: int| 0 <= j < p ==> s[j] != '.',
    ensures
        split_dots(s) == seq![s.take(p)] + split_dots(s.skip(p + 1)),
{
    lemma_find_char(s, '.');
    let i = find_char(s, '.');
    assert(i != -1);
    if i < p {
        assert(s[i] == '.');
        assert(false);
    }
    if p < i {
        assert(s[p] != '.');
        assert(false);
    }
}

/// A string without dots splits into itself alone.
pub proof fn lemma_split_dots_none(s: Seq<char>)
    requires
        forall|j: int| 0 <= j < s.len() ==> s[j] != '.',
    ensures
        split_dots(s) == seq![s],
{
    lemma_find_char(s, '.');
    let i = find_char(s, '.');
    if 0 <= i < s.len() {
        assert(s[i] == '.');
        assert(false);
    }
}

/// Powers of ten, for bounding digit strings.
pub open spec fn pow10(n: int) -> int
    decreases n,
{
    if n <= 0 {
        1
    } else {
        10 * pow10(n - 1)
    }
}

/// The first '.' at or after `from`, if any.
fn find_dot(s: &str, from: usize) -> (r: Option<usize>)
    requires
        from <= s@.len(),
    ensures
        match r {
            Some(p) => from <= p < s@.len() && s@[p as int] == '.' && (forall|j: int|
                from <= j < p ==> s@[j] != '.'),
            None => forall|j: int| from <= j < s@.len() ==> s@[j] != '.',
        },
{
    let len = s.unicode_len();
    let mut i: usize = from;
    while i < len
        invariant
            from <= i <= len,
            len == s@.len(),
            forall|j: int| from <= j < i ==> s@[j] != '.',
        decreases len - i,
    {
        if s.get_char(i) == '.' {
            return Some(i);
        }
        i = i + 1;
    }
    None
}

/// Parses the characters of `s` between `from` and `to` as one octet.
/// Returns its value exactly when that segment is a valid textual octet.
fn parse_octet(s: &str, from: usize, to: usize) -> (r: Option<u8>)
    requires
        from <= to <= s@.len(),
    ensures
        match r {
            Some(v) => valid_octet_text(s@.subrange(from as int, to as int)) && v == dec_seq_val(
                s@.subrange(from as int, to as int),
            ),
            None => !valid_octet_text(s@.subrange(from as int, to as int)),
        },
{
    let ghost seg = s@.subrange(from as int, to as int);
    let n = to - from;
    if n < 1 || n > 3 {
        return None;
    }
    if n > 1 && s.get_char(from) == '0' {
        assert(seg[0] == '0');
        return None;
    }
    let mut val: u32 = 0;
    let mut j: usize = from;
    while j < to
        invariant
            from <= j <= to <= s@.len(),
            seg == s@.subrange(from as int, to as int),
            1 <= to - from <= 3,
            forall|k: int| 0 <= k < j - from ==> is_dec_digit(seg[k]),
            val == dec_seq_val(seg.take(j - from)),
            val < pow10(j - from),
        decreases to - j,
    {
        let c = s.get_char(j);
        let cu = c as u32;
        if cu < 48 || cu > 57 {
            assert(seg[j - from] == c);
            assert(!is_dec_digit(seg[j - from]));
            return None;
        }
        proof {
            assert(seg[j - from] == c);
            assert(is_dec_digit(seg[j - from]));
            assert(seg.take(j - from + 1).drop_last() =~= seg.take(j - from));
            assert(seg.take(j - from + 1).last() == c);
            assert(pow10(0) == 1);
            assert(pow10(1) == 10);
            assert(pow10(2) == 100);
            assert(pow10(3) == 1000);
        }
        val = val * 10 + (cu - 48);
        j = j + 1;
    }
    proof {
        assert(seg.take(to - from) =~= seg);
    }
    if val > 255 {
        return None;
    }
    Some(val as u8)
}

/// Parses a dotted-quad address string, accepting exactly the strings that
/// `parse_ipv4_text` accepts.
pub fn parse_ipv4(s: &str) -> (r: Option<Ipv4Address>)
    ensures
        r == parse_ipv4_text(s@),
{
    let len = s.unicode_len();
    let p1 = match find_dot(s, 0) {
        Some(p) => p,
        None => {
            proof {
                lemma_split_dots_none(s@);
            }
            return None;
        },
    };
    proof {
        lemma_split_dots_step(s@, p1 as int);
    }
    let ghost rest1 = s@.skip(p1 + 1);
    let p2 = match find_dot(s, p1 + 1) {
        Some(p) => p,
        None => {
            proof {
                assert forall|j: int| 0 <= j < rest1.len() implies rest1[j] != '.' by {
                    assert(rest1[j] == s@[p1 + 1 + j]);
                }
                lemma_split_dots_none(rest1);
            }
            return None;
        },
    };
    proof {
        assert forall|j: int| 0 <= j < p2 - (p1 + 1) implies rest1[j] != '.' by {
            assert(rest1[j] == s@[p1 + 1 + j]);
        }
        assert(rest1[p2 - (p1 + 1)] == s@[p2 as int]);
        lemma_split_dots_step(rest1, p2 - (p1 + 1));
    }
    let ghost rest2 = s@.skip(p2 + 1);
    proof {
        assert(rest1.skip(p2 - (p1 + 1) + 1) =~= rest2);
    }
    let p3 = match find_dot(s, p2 + 1) {
        Some(p) => p,
        None => {
            proof {
                assert forall|j: int| 0 <= j < rest2.len() implies rest2[j] != '.' by {
                    assert(rest2[j] == s@[p2 + 1 + j]);
                }
                lemma_split_dots_none(rest2);
                assert(split_dots(s@).len() == 3);
            }
            return None;
        },
    };
    proof {
        assert forall|j: int| 0 <= j < p3 - (p2 + 1) implies rest2[j] != '.' by {
            assert(rest2[j] == s@[p2 + 1 + j]);
        }
        assert(rest2[p3 - (p2 + 1)] == s@[p3 as int]);
        lemma_split_dots_step(rest2, p3 - (p2 + 1));
    }
    let ghost rest3 = s@.skip(p3 + 1);
    proof {
        assert(rest2.skip(p3 - (p2 + 1) + 1) =~= rest3);
    }
    match find_dot(s, p3 + 1) {
        Some(p) => {
            proof {
                assert(rest3[p - (p3 + 1)] == s@[p as int]);
                lemma_split_dots_some(rest3, p - (p3 + 1));
                assert(split_dots(s@).len() >= 5);
            }
            return None;
        },
        None => {
            proof {
                assert forall|j: int| 0 <= j < rest3.len() implies rest3[j] != '.' by {
                    assert(rest3[j] == s@[p3 + 1 + j]);
                }
                lemma_split_dots_none(rest3);
            }
        },
    }
    let ghost ps = split_dots(s@);
    proof {
        assert(ps.len() == 4);
        assert(ps[0] =~= s@.subrange(0, p1 as int));
        assert(rest1.take(p2 - (p1 + 1)) =~= s@.subrange(p1 + 1, p2 as int));
        assert(ps[1] =~= s@.subrange(p1 + 1, p2 as int));
        assert(rest2.take(p3 - (p2 + 1)) =~= s@.subrange(p2 + 1, p3 as int));
        assert(ps[2] =~= s@.subrange(p2 + 1, p3 as int));
        assert(ps[3] =~= s@.subrange(p3 + 1, s@.len() as int));
    }
    let o0 = match parse_octet(s, 0, p1) {
        Some(v) => v,
        None => {
            return None;
        },
    };
    let o1 = match parse_octet(s, p1 + 1, p2) {
        Some(v) => v,
        None => {
            return None;
        },
    };
    let o2 = match parse_octet(s, p2 + 1, p3) {
        Some(v) => v,
        None => {
            return None;
        },
    };
    let o3 = match parse_octet(s, p3 + 1, len) {
        Some(v) => v,
        None => {
            return None;
        },
    };
    Some(Ipv4Address { o0, o1, o2, o3 })
}

/// A string with a dot splits into at least two parts.
pub proof fn lemma_split_dots_some(s: Seq<char>, p: int)
    requires
        0 <= p < s.len(),
        s[p] == '.',
    ensures
        split_dots(s).len() >= 2,
{
    lemma_find_char(s, '.');
    let i = find_char(s, '.');
    if i == -1 {
        assert(s[p] != '.');
        assert(false);
    } else {
        lemma_split_dots_nonempty(s.skip(i + 1));
    }
}

/// The decimal digit string of a non-negative number, no leading zeros.
pub open spec fn dec_digits_text(n: int) -> Seq<char>
    decreases n,
{
    if n <= 9 {
        seq![dec_char(n)]
    } else {
        dec_digits_text(n / 10).push(dec_char(n % 10))
    }
}

/// The dotted-quad text of a version-4 address.
pub open spec fn ipv4_text(a: Ipv4Address) -> Seq<char> {
    dec_digits_text(a.o0 as int) + seq!['.'] + dec_digits_text(a.o1 as int) + seq!['.']
        + dec_digits_text(a.o2 as int) + seq!['.'] + dec_digits_text(a.o3 as int)
}

/// The one-character string for a digit value.
fn digit_str(d: u8) -> (r: &'static str)
    requires
        d < 10,
    ensures
        r@ == seq![dec_char(d as int)],
{
    proof {
        reveal_strlit("0");
        reveal_strlit("1");
        reveal_strlit("2");
        reveal_strlit("3");
        reveal_strlit("4");
        reveal_strlit("5");
        reveal_strlit("6");
        reveal_strlit("7");
        reveal_strlit("8");
        reveal_strlit("9");
    }
    match d {
        0 => "0",
        1 => "1",
        2 => "2",
        3 => "3",
        4 => "4",
        5 => "5",
        6 => "6",
        7 => "7",
        8 => "8",
        _ => "9",
    }
}

/// Appends the decimal digits of `n` to `s`.
pub fn push_dec(s: &mut String, n: u32)
    ensures
        final(s)@ == old(s)@ + dec_digits_text(n as int),
    decreases n,
{
    if n >= 10 {
        push_dec(s, n / 10);
        s.append(digit_str((n % 10) as u8));
        proof {
            assert(s@ =~= old(s)@ + dec_digits_text(n as int));
        }
    } else {
        s.append(digit_str(n as u8));
        proof {
            assert(s@ =~= old(s)@ + dec_digits_text(n as int));
        }
    }
}

/// The dotted-quad string of a version-4 address.
pub fn ipv4_string(a: &Ipv4Address) -> (r: String)
    ensures
        r@ == ipv4_text(*a),
{
    proof {
        reveal_strlit(".");
    }
    let mut s = String::new();
    push_dec(&mut s, a.o0 as u32);
    s.append(".");
    push_dec(&mut s, a.o1 as u32);
    s.append(".");
    push_dec(&mut s, a.o2 as u32);
    s.append(".");
    push_dec(&mut s, a.o3 as u32);
    proof {
        assert(s@ =~= ipv4_text(*a));
    }
    s
}

/// Digit strings hold digits only, are non-empty, evaluate back to their
/// number, and carry no leading zero.
pub proof fn lemma_dec_digits_text(n: int)
    requires
        0 <= n,
    ensures
        all_dec_digits(dec_digits_text(n)),
        dec_digits_text(n).len() >= 1,
        dec_seq_val(dec_digits_text(n)) == n,
        dec_digits_text(n).len() > 1 ==> dec_digits_text(n)[0] != '0',
        n < 10 ==> dec_digits_text(n).len() == 1,
        n >= 10 ==> dec_digits_text(n).len() >= 2,
        n < 100 ==> dec_digits_text(n).len() <= 2,
        n < 1000 ==> dec_digits_text(n).len() <= 3,
    decreases n,
{
    if n <= 9 {
        let t = dec_digits_text(n);
        assert(t =~= seq![dec_char(n)]);
        assert(dec_char(n) as int == ('0' as int) + n);
        assert(is_dec_digit(dec_char(n)));
        assert(t.drop_last() =~= Seq::<char>::empty());
        assert(dec_seq_val(t.drop_last()) == 0);
        assert(t.last() == dec_char(n));
        assert(dec_seq_val(t) == dec_val(dec_char(n)));
    } else {
        lemma_dec_digits_text(n / 10);
        let t = dec_digits_text(n);
        let h = dec_digits_text(n / 10);
        assert(t =~= h.push(dec_char(n % 10)));
        assert(t.drop_last() =~= h);
        assert(dec_char(n % 10) as int == ('0' as int) + n % 10);
        assert(is_dec_digit(dec_char(n % 10)));
        assert(dec_seq_val(t) == dec_seq_val(h) * 10 + dec_val(dec_char(n % 10)));
        assert(t[0] == h[0]);
        if h.len() == 1 {
            assert(n / 10 <= 9);
            assert(h =~= seq![dec_char(n / 10)]);
            assert(h[0] == dec_char(n / 10));
            assert(n / 10 >= 1);
            assert(dec_char(n / 10) as int == ('0' as int) + n / 10);
            assert(dec_char(n / 10) != '0');
        }
    }
}

/// A number up to 255 prints as a valid textual octet.
pub proof fn lemma_octet_text_valid(n: int)
    requires
        0 <= n <= 255,
    ensures
        valid_octet_text(dec_digits_text(n)),
        dec_seq_val(dec_digits_text(n)) == n,
{
    lemma_dec_digits_text(n);
}

/// Printing an address and parsing the result yields the address back.
#[verifier::rlimit(60)]
pub proof fn lemma_ipv4_round_trip(a: Ipv4Address)
    ensures
        parse_ipv4_text(ipv4_text(a)) == Some(a),
{
    let d0 = dec_digits_text(a.o0 as int);
    let d1 = dec_digits_text(a.o1 as int);
    let d2 = dec_digits_text(a.o2 as int);
    let d3 = dec_digits_text(a.o3 as int);
    lemma_octet_text_valid(a.o0 as int);
    lemma_octet_text_valid(a.o1 as int);
    lemma_octet_text_valid(a.o2 as int);
    lemma_octet_text_valid(a.o3 as int);
    let t = ipv4_text(a);
    let p1 = d0.len() as int;
    let p2 = p1 + 1 + d1.len() as int;
    let p3 = p2 + 1 + d2.len() as int;
    assert forall|j: int| 0 <= j < p1 implies t[j] != '.' by {
        assert(t[j] == d0[j]);
        assert(is_dec_digit(d0[j]));
    }
    assert(t[p1] == '.');
    lemma_split_dots_step(t, p1);
    let r1 = t.skip(p1 + 1);
    assert(r1 =~= d1 + seq!['.'] + d2 + seq!['.'] + d3);
    assert forall|j: int| 0 <= j < d1.len() implies r1[j] != '.' by {
        assert(r1[j] == d1[j]);
        assert(is_dec_digit(d1[j]));
    }
    assert(r1[d1.len() as int] == '.');
    lemma_split_dots_step(r1, d1.len() as int);
    let r2 = r1.skip(d1.len() as int + 1);
    assert(r2 =~= d2 + seq!['.'] + d3);
    assert forall|j: int| 0 <= j < d2.len() implies r2[j] != '.' by {
        assert(r2[j] == d2[j]);
        assert(is_dec_digit(d2[j]));
    }
    assert(r2[d2.len() as int] == '.');
    lemma_split_dots_step(r2, d2.len() as int);
    let r3 = r2.skip(d2.len() as int + 1);
    assert(r3 =~= d3);
    assert forall|j: int| 0 <= j < r3.len() implies r3[j] != '.' by {
        assert(is_dec_digit(d3[j]));
    }
    lemma_split_dots_none(r3);
    let ps = split_dots(t);
    assert(ps.len() == 4);
    assert(ps[0] =~= t.take(p1));
    assert(t.take(p1) =~= d0);
    assert(ps[1] =~= r1.take(d1.len() as int));
    assert(r1.take(d1.len() as int) =~= d1);
    assert(ps[2] =~= r2.take(d2.len() as int));
    assert(r2.take(d2.len() as int) =~= d2);
    assert(ps[3] == d3);
}

} // verus!
