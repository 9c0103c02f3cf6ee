//! Reading integers out of attribute text, as `str::parse` and
//! `from_str_radix` read them, and splitting comma-separated lists.
use vstd::prelude::*;

verus! {

/// The value of the digit `c` in base `radix` (at most 36), if it is one.
pub open spec fn digit_value(c: char, radix: nat) -> Option<nat> {
    let u = c as u32;
    let d: nat = if '0' as u32 <= u <= '9' as u32 {
        (u - '0' as u32) as nat
    } else if 'a' as u32 <= u <= 'z' as u32 {
        (u - 'a' as u32 + 10) as nat
    } else if 'A' as u32 <= u <= 'Z' as u32 {
        (u - 'A' as u32 + 10) as nat
    } else {
        36
    };
    if d < radix {
        Some(d)
    } else {
        None
    }
}

pub open spec fn all_digits(s: Seq<char>, radix: nat) -> bool {
    forall|k: int| 0 <= k < s.len() ==> (#[trigger] digit_value(s[k], radix)) is Some
}

/// The number that the digits `s` write in base `radix`.
pub open spec fn digits_value(s: Seq<char>, radix: nat) -> nat
    decreases s.len(),
{
    if s.len() == 0 {
        0
    } else {
        digits_value(s.drop_last(), radix) * radix + match digit_value(s.last(), radix) {
            Some(d) => d,
            None => 0,
        }
    }
}

/// `s` without one leading `+`.
pub open spec fn unsigned_body(s: Seq<char>) -> Seq<char> {
    if s.len() > 0 && s[0] == '+' {
        s.drop_first()
    } else {
        s
    }
}

/// The unsigned integer written in `s`: an optional `+`, then one or more
/// digits of base `radix`, worth no more than `max`.
pub open spec fn unsigned_of(s: Seq<char>, radix: nat, max: nat) -> Option<nat> {
    let body = unsigned_body(s);
    if body.len() > 0 && all_digits(body, radix) && digits_value(body, radix) <= max {
        Some(digits_value(body, radix))
    } else {
        None
    }
}

/// The signed 64-bit integer written in decimal in `s`.
pub open spec fn i64_of(s: Seq<char>) -> Option<int> {
    if s.len() > 0 && s[0] == '-' {
        match unsigned_of(s.drop_first(), 10, 0x8000_0000_0000_0000) {
            Some(v) => if s.len() > 1 && s[1] != '+' {
                Some(-v)
            } else {
                None
            },
            None => None,
        }
    } else {
        match unsigned_of(s, 10, 0x7fff_ffff_ffff_ffff) {
            Some(v) => Some(v as int),
            None => None,
        }
    }
}

proof fn lemma_value_grows(s: Seq<char>, k: int, radix: nat)
    requires
        0 <= k <= s.len(),
        radix >= 1,
    ensures
        digits_value(s.subrange(0, k), radix) <= digits_value(s, radix),
    decreases s.len() - k,
{
    if k < s.len() {
        lemma_value_grows(s, k + 1, radix);
        let p = s.subrange(0, k + 1);
        assert(p.drop_last() =~= s.subrange(0, k));
        let v = digits_value(s.subrange(0, k), radix);
        assert(v * radix >= v) by (nonlinear_arith)
            requires
                radix >= 1,
        ;
    } else {
        assert(s.subrange(0, k) =~= s);
    }
}

pub fn digit_of(c: char, radix: u32) -> (r: Option<u32>)
    requires
        2 <= radix <= 36,
    ensures
        match r {
            Some(d) => digit_value(c, radix as nat) == Some(d as nat) && d < radix,
            None => digit_value(c, radix as nat) is None,
        },
{
    let u = c as u32;
    let d: u32 = if '0' as u32 <= u && u <= '9' as u32 {
        u - '0' as u32
    } else if 'a' as u32 <= u && u <= 'z' as u32 {
        u - 'a' as u32 + 10
    } else if 'A' as u32 <= u && u <= 'Z' as u32 {
        u - 'A' as u32 + 10
    } else {
        36
    };
    if d < radix {
        Some(d)
    } else {
        None
    }
}

/// Reads an unsigned integer of base `radix` no greater than `max`, as
/// `from_str_radix` does for an unsigned type whose largest value is `max`.
pub fn parse_unsigned(s: &str, radix: u32, max: u64) -> (r: Option<u64>)
    requires
        2 <= radix <= 36,
    ensures
        match r {
            Some(v) => unsigned_of(s@, radix as nat, max as nat) == Some(v as nat),
            None => unsigned_of(s@, radix as nat, max as nat) is None,
        },
{
    let n = s.unicode_len();
    let body: &str = if n > 0 && s.get_char(0) == '+' {
        s.substring_char(1, n)
    } else {
        s
    };
    proof {
        if n > 0 && s@[0] == '+' {
            assert(body@ =~= s@.drop_first());
        }
    }
    let m = body.unicode_len();
    if m == 0 {
        return None;
    }
    let ghost b = body@;
    assert(b == unsigned_body(s@));
    let mut acc: u64 = 0;
    let mut k: usize = 0;
    assert(b.subrange(0, 0) =~= Seq::<char>::empty());
    while k < m
        invariant
            b == body@,
            b == unsigned_body(s@),
            m == b.len(),
            k <= m,
            2 <= radix <= 36,
            acc as nat == digits_value(b.subrange(0, k as int), radix as nat),
            acc <= max,
            all_digits(b.subrange(0, k as int), radix as nat),
        decreases m - k,
    {
        let c = body.get_char(k);
        let ghost p = b.subrange(0, k + 1);
        assert(p.drop_last() =~= b.subrange(0, k as int));
        assert(p.last() == c);
        match digit_of(c, radix) {
            None => {
                assert(digit_value(b[k as int], radix as nat) is None);
                assert(!all_digits(b, radix as nat));
                return None;
            },
            Some(d) => {
                assert((acc as u128) * (radix as u128) <= 0xffff_ffff_ffff_ffffu128 * 36) by (nonlinear_arith)
                    requires
                        acc <= 0xffff_ffff_ffff_ffffu64,
                        radix <= 36,
                ;
                let next: u128 = (acc as u128) * (radix as u128) + (d as u128);
                assert(next == digits_value(p, radix as nat));
                if next > max as u128 {
                    proof {
                        lemma_value_grows(b, k + 1, radix as nat);
                        assert(digits_value(b, radix as nat) > max);
                    }
                    return None;
                }
                acc = next as u64;
                assert forall|j: int| 0 <= j < k + 1 implies (#[trigger] digit_value(p[j], radix as nat)) is Some by {
                    if j < k {
                        assert(p[j] == b.subrange(0, k as int)[j]);
                    }
                }
                k = k + 1;
            },
        }
    }
    assert(b.subrange(0, m as int) =~= b);
    Some(acc)
}

/// Reads a signed 64-bit decimal integer, as `str::parse::<i64>` does.
pub fn parse_i64(s: &str) -> (r: Option<i64>)
    ensures
        match r {
            Some(v) => i64_of(s@) == Some(v as int),
            None => i64_of(s@) is None,
        },
{
    let n = s.unicode_len();
    if n > 0 && s.get_char(0) == '-' {
        let rest = s.substring_char(1, n);
        assert(rest@ =~= s@.drop_first());
        if n > 1 && s.get_char(1) == '+' {
            return None;
        }
        match parse_unsigned(rest, 10, 0x8000_0000_0000_0000) {
            Some(v) => {
                let neg: i128 = -(v as i128);
                Some(neg as i64)
            },
            None => None,
        }
    } else {
        match parse_unsigned(s, 10, 0x7fff_ffff_ffff_ffff) {
            Some(v) => Some(v as i64),
            None => None,
        }
    }
}

/// The pieces of `s` between the separators `sep`, as `str::split` gives them.
pub open spec fn split_on(s: Seq<char>, sep: char) -> Seq<Seq<char>>
    decreases s.len(),
{
    if s.len() == 0 {
        seq![Seq::empty()]
    } else {
        let front = split_on(s.drop_last(), sep);
        if s.last() == sep {
            front.push(Seq::empty())
        } else {
            front.update(front.len() - 1, front.last().push(s.last()))
        }
    }
}

pub proof fn lemma_split_nonempty(s: Seq<char>, sep: char)
    ensures
        split_on(s, sep).len() >= 1,
    decreases s.len(),
{
    if s.len() > 0 {
        lemma_split_nonempty(s.drop_last(), sep);
    }
}

/// Splits `s` at each `sep`.
pub fn split(s: &str, sep: char) -> (r: Vec<String>)
    ensures
        r@.map_values(|t: String| t@) == split_on(s@, sep),
{
    let n = s.unicode_len();
    let mut pieces: Vec<String> = Vec::new();
    let mut start: usize = 0;
    let mut k: usize = 0;
    assert(s@.subrange(0, 0) =~= Seq::<char>::empty());
    while k < n
        invariant
            n == s@.len(),
            start <= k <= n,
            pieces@.map_values(|t: String| t@).push(s@.subrange(start as int, k as int))
                == split_on(s@.subrange(0, k as int), sep),
        decreases n - k,
    {
        let c = s.get_char(k);
        let ghost p = s@.subrange(0, k + 1);
        assert(p.drop_last() =~= s@.subrange(0, k as int));
        proof {
            lemma_split_nonempty(s@.subrange(0, k as int), sep);
        }
        let ghost before = pieces@.map_values(|t: String| t@);
        if c == sep {
            let piece = s.substring_char(start, k).to_owned();
            pieces.push(piece);
            start = k + 1;
            assert(pieces@.map_values(|t: String| t@) =~= before.push(piece@));
            assert(s@.subrange(start as int, k + 1) =~= Seq::<char>::empty());
            assert(pieces@.map_values(|t: String| t@).push(s@.subrange(start as int, k + 1))
                =~= split_on(p, sep));
        } else {
            assert(s@.subrange(start as int, k + 1) =~= s@.subrange(start as int, k as int).push(c));
            assert(pieces@.map_values(|t: String| t@).push(s@.subrange(start as int, k + 1))
                =~= split_on(p, sep));
        }
        k = k + 1;
    }
    assert(s@.subrange(0, n as int) =~= s@);
    let last = s.substring_char(start, n).to_owned();
    let ghost before = pieces@.map_values(|t: String| t@);
    pieces.push(last);
    assert(pieces@.map_values(|t: String| t@) =~= before.push(last@));
    pieces
}

} // verus!
