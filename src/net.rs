//! Network addresses as they appear in `address` elements.
use vstd::prelude::*;
use crate::number::{digit_of, digit_value, lemma_split_nonempty, parse_unsigned, split, split_on, unsigned_of};

verus! {

/// The model of an IP address: four octets or eight 16-bit groups.
pub enum IpModel {
    V4(Seq<u8>),
    V6(Seq<u16>),
}

/// An IPv4 or IPv6 address.
#[derive(Clone, Copy, Debug, PartialEq, Eq)]
pub enum IpAddr {
    V4([u8; 4]),
    V6([u16; 8]),
}

impl View for IpAddr {
    type V = IpModel;

    open spec fn view(&self) -> IpModel {
        match self {
            IpAddr::V4(a) => IpModel::V4(a@),
            IpAddr::V6(a) => IpModel::V6(a@),
        }
    }
}

/// One decimal octet of a dotted quad: one to three digits, no sign, no
/// leading zero, at most 255.
pub open spec fn octet_of(p: Seq<char>) -> Option<u8> {
    if 1 <= p.len() <= 3 && p[0] != '+' && !(p.len() > 1 && p[0] == '0') {
        match unsigned_of(p, 10, 255) {
            Some(v) => Some(v as u8),
            None => None,
        }
    } else {
        None
    }
}

/// One group of an IPv6 address: one to four hexadecimal digits.
pub open spec fn group_of(p: Seq<char>) -> Option<u16> {
    if 1 <= p.len() <= 4 && p[0] != '+' {
        match unsigned_of(p, 16, 0xffff) {
            Some(v) => Some(v as u16),
            None => None,
        }
    } else {
        None
    }
}

/// The four octets of a dotted-quad IPv4 address.
pub open spec fn ipv4_of(s: Seq<char>) -> Option<Seq<u8>> {
    let parts = split_on(s, '.');
    if parts.len() == 4 && forall|k: int| 0 <= k < 4 ==> (#[trigger] octet_of(parts[k])) is Some {
        Some(Seq::new(4, |k: int| octet_of(parts[k])->Some_0))
    } else {
        None
    }
}

/// The groups that the last piece of a colon-separated list gives: one
/// group, or, where `tail` allows it, a dotted quad standing for two.
pub open spec fn last_groups(p: Seq<char>, tail: bool) -> Option<Seq<u16>> {
    match group_of(p) {
        Some(g) => Some(seq![g]),
        None => if tail {
            match ipv4_of(p) {
                Some(a) => Some(
                    seq![
                        (a[0] as int * 256 + a[1] as int) as u16,
                        (a[2] as int * 256 + a[3] as int) as u16,
                    ],
                ),
                None => None,
            }
        } else {
            None
        },
    }
}

/// The groups of a colon-separated list, none of them empty, the last of
/// which may be a dotted quad where `tail` allows it; the empty text holds
/// no group.
#[verifier::opaque]
pub open spec fn groups_of(s: Seq<char>, tail: bool) -> Option<Seq<u16>> {
    if s.len() == 0 {
        Some(Seq::empty())
    } else {
        let parts = split_on(s, ':');
        let head = parts.drop_last();
        if forall|k: int| 0 <= k < head.len() ==> (#[trigger] group_of(head[k])) is Some {
            match last_groups(parts.last(), tail) {
                Some(t) => Some(head.map_values(|p: Seq<char>| group_of(p)->Some_0) + t),
                None => None,
            }
        } else {
            None
        }
    }
}

/// Where `::` first occurs in `s` at or after `i`.
pub open spec fn double_colon_from(s: Seq<char>, i: nat) -> Option<int>
    decreases s.len() - i,
{
    if i + 1 >= s.len() {
        None
    } else if s[i as int] == ':' && s[i + 1 as int] == ':' {
        Some(i as int)
    } else {
        double_colon_from(s, i + 1)
    }
}

pub open spec fn double_colon_at(s: Seq<char>) -> Option<int> {
    double_colon_from(s, 0)
}

/// The eight groups of an IPv6 address, written in full or with one `::`
/// standing for one or more zero groups; the last two groups may be written
/// as a dotted quad.
pub open spec fn ipv6_of(s: Seq<char>) -> Option<Seq<u16>> {
    match double_colon_at(s) {
        None => match groups_of(s, true) {
            Some(g) => if s.len() > 0 && g.len() == 8 {
                Some(g)
            } else {
                None
            },
            None => None,
        },
        Some(i) => match (groups_of(s.subrange(0, i), false), groups_of(s.subrange(i + 2, s.len() as int), true)) {
            (Some(l), Some(r)) => if l.len() + r.len() <= 7 {
                Some(l + Seq::new((8 - l.len() - r.len()) as nat, |k: int| 0u16) + r)
            } else {
                None
            },
            _ => None,
        },
    }
}

/// The address that `s` writes: a dotted quad, else an IPv6 address.
pub open spec fn ip_of(s: Seq<char>) -> Option<IpModel> {
    match ipv4_of(s) {
        Some(a) => Some(IpModel::V4(a)),
        None => match ipv6_of(s) {
            Some(g) => Some(IpModel::V6(g)),
            None => None,
        },
    }
}

/// The six bytes of a MAC address written as six pairs of hexadecimal
/// digits, all separated by `:` or all by `-`.
pub open spec fn mac_of(s: Seq<char>) -> Option<Seq<u8>> {
    if s.len() == 17 && (s[2] == ':' || s[2] == '-') && (forall|k: int|
        0 <= k < 5 ==> #[trigger] s[3 * k + 2] == s[2]) && (forall|k: int|
        0 <= k < 17 && k % 3 != 2 ==> (#[trigger] digit_value(s[k], 16)) is Some) {
        Some(
            Seq::new(
                6,
                |k: int|
                    (digit_value(s[3 * k], 16)->Some_0 * 16 + digit_value(
                        s[3 * k + 1],
                        16,
                    )->Some_0) as u8,
            ),
        )
    } else {
        None
    }
}

fn octet(p: &String) -> (r: Option<u8>)
    ensures
        r == octet_of(p@),
{
    let n = p.as_str().unicode_len();
    if n < 1 || n > 3 {
        return None;
    }
    let c0 = p.as_str().get_char(0);
    if c0 == '+' || (n > 1 && c0 == '0') {
        return None;
    }
    match parse_unsigned(p.as_str(), 10, 255) {
        Some(v) => Some(v as u8),
        None => None,
    }
}

fn group(p: &String) -> (r: Option<u16>)
    ensures
        r == group_of(p@),
{
    let n = p.as_str().unicode_len();
    if n < 1 || n > 4 {
        return None;
    }
    if p.as_str().get_char(0) == '+' {
        return None;
    }
    match parse_unsigned(p.as_str(), 16, 0xffff) {
        Some(v) => Some(v as u16),
        None => None,
    }
}

fn ipv4(s: &str) -> (r: Option<[u8; 4]>)
    ensures
        match r {
            Some(a) => ipv4_of(s@) == Some(a@),
            None => ipv4_of(s@) is None,
        },
{
    let parts = split(s, '.');
    let ghost ps = split_on(s@, '.');
    assert(parts@.len() == ps.len());
    if parts.len() != 4 {
        return None;
    }
    assert(forall|k: int| 0 <= k < 4 ==> parts@[k]@ == ps[k]);
    let a = match octet(&parts[0]) {
        Some(v) => v,
        None => {
            assert(octet_of(ps[0]) is None);
            return None;
        },
    };
    let b = match octet(&parts[1]) {
        Some(v) => v,
        None => {
            assert(octet_of(ps[1]) is None);
            return None;
        },
    };
    let c = match octet(&parts[2]) {
        Some(v) => v,
        None => {
            assert(octet_of(ps[2]) is None);
            return None;
        },
    };
    let d = match octet(&parts[3]) {
        Some(v) => v,
        None => {
            assert(octet_of(ps[3]) is None);
            return None;
        },
    };
    let r = [a, b, c, d];
    assert(r@ =~= Seq::new(4, |k: int| octet_of(ps[k])->Some_0));
    Some(r)
}

fn last_group_exec(p: &String, tail: bool) -> (r: Option<Vec<u16>>)
    ensures
        match r {
            Some(g) => last_groups(p@, tail) == Some(g@),
            None => last_groups(p@, tail) is None,
        },
{
    let mut out: Vec<u16> = Vec::new();
    match group(p) {
        Some(g) => {
            out.push(g);
            assert(out@ =~= seq![g]);
            Some(out)
        },
        None => {
            if !tail {
                return None;
            }
            match ipv4(p.as_str()) {
                Some(a) => {
                    out.push((a[0] as u16) * 256 + (a[1] as u16));
                    out.push((a[2] as u16) * 256 + (a[3] as u16));
                    assert(out@ =~= seq![
                        (a@[0] as int * 256 + a@[1] as int) as u16,
                        (a@[2] as int * 256 + a@[3] as int) as u16,
                    ]);
                    Some(out)
                },
                None => None,
            }
        },
    }
}

fn groups(s: &str, tail: bool) -> (r: Option<Vec<u16>>)
    ensures
        match r {
            Some(g) => groups_of(s@, tail) == Some(g@),
            None => groups_of(s@, tail) is None,
        },
{
    reveal(groups_of);
    let mut out: Vec<u16> = Vec::new();
    if s.unicode_len() == 0 {
        assert(out@ =~= Seq::<u16>::empty());
        return Some(out);
    }
    let parts = split(s, ':');
    let ghost ps = split_on(s@, ':');
    proof {
        lemma_split_nonempty(s@, ':');
    }
    let ghost head = ps.drop_last();
    assert(parts@.len() == ps.len());
    let last = parts.len() - 1;
    let mut k: usize = 0;
    while k < last
        invariant
            parts@.map_values(|t: String| t@) == ps,
            ps == split_on(s@, ':'),
            head == ps.drop_last(),
            s@.len() > 0,
            last == ps.len() - 1,
            k <= last,
            forall|j: int| 0 <= j < k ==> (#[trigger] group_of(head[j])) is Some,
            out@ =~= head.subrange(0, k as int).map_values(|p: Seq<char>| group_of(p)->Some_0),
        decreases last - k,
    {
        assert(parts@[k as int]@ == head[k as int]);
        match group(&parts[k]) {
            Some(g) => {
                out.push(g);
            },
            None => {
                assert(group_of(head[k as int]) is None);
                proof {
                    reveal(groups_of);
                }
                return None;
            },
        }
        k = k + 1;
    }
    assert(head.subrange(0, head.len() as int) =~= head);
    assert(parts@[last as int]@ == ps.last());
    match last_group_exec(&parts[last], tail) {
        Some(mut t) => {
            out.append(&mut t);
            Some(out)
        },
        None => None,
    }
}

fn double_colon(s: &str) -> (r: Option<usize>)
    ensures
        match r {
            Some(i) => double_colon_at(s@) == Some(i as int) && i + 2 <= s@.len(),
            None => double_colon_at(s@) is None,
        },
{
    let n = s.unicode_len();
    let mut i: usize = 0;
    while i < n
        invariant
            n == s@.len(),
            i <= n,
            double_colon_at(s@) == double_colon_from(s@, i as nat),
        decreases n - i,
    {
        if i + 1 < n && s.get_char(i) == ':' && s.get_char(i + 1) == ':' {
            return Some(i);
        }
        i = i + 1;
    }
    None
}

/// `l`, then zero groups, then `r`: eight groups in all.
fn join_groups(l: Vec<u16>, r: &Vec<u16>) -> (out: Vec<u16>)
    requires
        l@.len() + r@.len() <= 7,
    ensures
        out@ == l@ + Seq::new((8 - l@.len() - r@.len()) as nat, |k: int| 0u16) + r@,
        out@.len() == 8,
{
    let mut out = l;
    let zeros: usize = 8 - out.len() - r.len();
    let ghost lv = out@;
    let mut z: usize = 0;
    while z < zeros
        invariant
            z <= zeros,
            out@ =~= lv + Seq::new(z as nat, |k: int| 0u16),
        decreases zeros - z,
    {
        out.push(0u16);
        z = z + 1;
    }
    let mut k: usize = 0;
    let ghost mid = out@;
    while k < r.len()
        invariant
            k <= r@.len(),
            out@ =~= mid + r@.subrange(0, k as int),
        decreases r.len() - k,
    {
        out.push(r[k]);
        k = k + 1;
    }
    assert(r@.subrange(0, r@.len() as int) =~= r@);
    out
}

fn ipv6(s: &str) -> (r: Option<[u16; 8]>)
    ensures
        match r {
            Some(a) => ipv6_of(s@) == Some(a@),
            None => ipv6_of(s@) is None,
        },
{
    let n = s.unicode_len();
    let at = double_colon(s);
    let all: Vec<u16> = if at.is_none() {
        if n == 0 {
            return None;
        }
        match groups(s, true) {
            Some(g) => {
                if g.len() != 8 {
                    return None;
                }
                g
            },
            None => return None,
        }
    } else {
        let i = at.unwrap();
        let left = s.substring_char(0, i);
        let right = s.substring_char(i + 2, n);
        let l = match groups(left, false) {
            Some(g) => g,
            None => return None,
        };
        let r = match groups(right, true) {
            Some(g) => g,
            None => return None,
        };
        if l.len() > 7 || r.len() > 7 - l.len() {
            return None;
        }
        join_groups(l, &r)
    };
    assert(all@.len() == 8);
    let a = [all[0], all[1], all[2], all[3], all[4], all[5], all[6], all[7]];
    assert(a@ =~= all@);
    Some(a)
}

/// Reads an IP address: a dotted quad, else an IPv6 address.
pub fn parse_ip(s: &str) -> (r: Option<IpAddr>)
    ensures
        match r {
            Some(a) => ip_of(s@) == Some(a@),
            None => ip_of(s@) is None,
        },
{
    match ipv4(s) {
        Some(a) => Some(IpAddr::V4(a)),
        None => match ipv6(s) {
            Some(g) => Some(IpAddr::V6(g)),
            None => None,
        },
    }
}

/// Reads a MAC address: six pairs of hexadecimal digits, all separated by
/// `:` or all by `-`.
pub fn parse_mac(s: &str) -> (r: Option<[u8; 6]>)
    ensures
        match r {
            Some(a) => mac_of(s@) == Some(a@),
            None => mac_of(s@) is None,
        },
{
    if s.unicode_len() != 17 {
        return None;
    }
    let sep = s.get_char(2);
    if sep != ':' && sep != '-' {
        return None;
    }
    let mut k: usize = 0;
    while k < 17
        invariant
            s@.len() == 17,
            sep == s@[2],
            k <= 17,
            forall|j: int| 0 <= j < k && j % 3 == 2 ==> s@[j] == sep,
            forall|j: int| 0 <= j < k && j % 3 != 2 ==> (#[trigger] digit_value(s@[j], 16)) is Some,
        decreases 17 - k,
    {
        let c = s.get_char(k);
        if k % 3 == 2 {
            if c != sep {
                assert(s@[3 * (k / 3) as int + 2] != s@[2]);
                return None;
            }
        } else if digit_of(c, 16).is_none() {
            assert(digit_value(s@[k as int], 16) is None);
            return None;
        }
        k = k + 1;
    }
    assert forall|j: int| 0 <= j < 5 implies #[trigger] s@[3 * j + 2] == s@[2] by {
        assert((3 * j + 2) % 3 == 2);
    }
    let mut bytes: Vec<u8> = Vec::new();
    let mut b: usize = 0;
    while b < 6
        invariant
            s@.len() == 17,
            b <= 6,
            forall|j: int| 0 <= j < 17 && j % 3 != 2 ==> (#[trigger] digit_value(s@[j], 16)) is Some,
            bytes@.len() == b,
            forall|j: int| 0 <= j < b ==> bytes@[j] == (digit_value(s@[3 * j], 16)->Some_0 * 16
                + digit_value(s@[3 * j + 1], 16)->Some_0) as u8,
        decreases 6 - b,
    {
        assert((3 * b as int) % 3 == 0 && (3 * b as int + 1) % 3 == 1);
        assert(digit_value(s@[3 * b as int], 16) is Some);
        assert(digit_value(s@[3 * b as int + 1], 16) is Some);
        let hi = match digit_of(s.get_char(3 * b), 16) {
            Some(d) => d,
            None => return None,
        };
        let lo = match digit_of(s.get_char(3 * b + 1), 16) {
            Some(d) => d,
            None => return None,
        };
        bytes.push((hi * 16 + lo) as u8);
        b = b + 1;
    }
    let a = [bytes[0], bytes[1], bytes[2], bytes[3], bytes[4], bytes[5]];
    assert(a@ =~= Seq::new(
        6,
        |j: int| (digit_value(s@[3 * j], 16)->Some_0 * 16 + digit_value(s@[3 * j + 1], 16)->Some_0) as u8,
    ));
    Some(a)
}

} // verus!
