//! Addresses of hosts as they are written.

use crate::net::IpAddr;
use vstd::prelude::*;

verus! {

/// The position at or behind `i` of a byte.
pub open spec fn byte_at(s: Seq<u8>, b: u8, i: int) -> Option<int>
    decreases s.len() - i,
{
    if i < 0 || i >= s.len() {
        None
    } else if s[i] == b {
        Some(i)
    } else {
        byte_at(s, b, i + 1)
    }
}

/// What stands between separators.
pub open spec fn fields(s: Seq<u8>, sep: u8) -> Seq<Seq<u8>>
    decreases s.len(),
{
    match byte_at(s, sep, 0) {
        Some(k) => if 0 <= k < s.len() {
            seq![s.take(k)] + fields(s.skip(k + 1), sep)
        } else {
            seq![s]
        },
        None => seq![s],
    }
}

/// The number that decimal digits write.
pub open spec fn decimal_value(s: Seq<u8>) -> Option<int>
    decreases s.len(),
{
    if s.len() == 0 {
        Some(0)
    } else if 48 <= s.last() <= 57 {
        match decimal_value(s.drop_last()) {
            Some(n) => Some(10 * n + (s.last() - 48)),
            None => None,
        }
    } else {
        None
    }
}

/// The number that hexadecimal digits write.
pub open spec fn hexadecimal_value(s: Seq<u8>) -> Option<int>
    decreases s.len(),
{
    if s.len() == 0 {
        Some(0)
    } else {
        match (crate::types::hex_value(s.last()), hexadecimal_value(s.drop_last())) {
            (Some(d), Some(n)) => Some(16 * n + d),
            _ => None,
        }
    }
}

/// A number under 256, in at most three digits and without a zero in front.
pub open spec fn octet(s: Seq<u8>) -> Option<int> {
    if s.len() == 0 || s.len() > 3 || (s.len() > 1 && s[0] == 48) {
        None
    } else {
        match decimal_value(s) {
            Some(n) => if n < 256 {
                Some(n)
            } else {
                None
            },
            None => None,
        }
    }
}

/// The address that four numbers with dots between them write.
pub open spec fn ipv4_text(s: Seq<u8>) -> Option<u32> {
    let f = fields(s, 46);
    if f.len() == 4 {
        match (octet(f[0]), octet(f[1]), octet(f[2]), octet(f[3])) {
            (Some(a), Some(b), Some(c), Some(d)) => Some(
                (a * 0x100_0000 + b * 0x1_0000 + c * 0x100 + d) as u32,
            ),
            _ => None,
        }
    } else {
        None
    }
}

/// A group of one to four hexadecimal digits.
pub open spec fn group(s: Seq<u8>) -> Option<int> {
    if s.len() == 0 || s.len() > 4 {
        None
    } else {
        hexadecimal_value(s)
    }
}

/// The first `n` groups of a list.
pub open spec fn groups(f: Seq<Seq<u8>>, n: int) -> Option<Seq<int>>
    decreases n,
{
    if n <= 0 {
        Some(Seq::empty())
    } else {
        match (groups(f, n - 1), group(f[n - 1])) {
            (Some(g), Some(x)) => Some(g.push(x)),
            _ => None,
        }
    }
}

/// The groups that a text writes with colons between them; the last two may be written as four
/// numbers with dots between them, where that is allowed. The empty text writes none.
pub open spec fn group_list(s: Seq<u8>, dotted: bool) -> Option<Seq<int>> {
    if s.len() == 0 {
        Some(Seq::empty())
    } else {
        let f = fields(s, 58);
        match (if dotted {
            ipv4_text(f.last())
        } else {
            None
        }) {
            Some(a) => match groups(f, f.len() - 1) {
                Some(g) => Some(g.push(a as int / 0x1_0000).push(a as int % 0x1_0000)),
                None => None,
            },
            None => groups(f, f.len() as int),
        }
    }
}

/// The position at or behind `i` of two colons.
pub open spec fn double_colon(s: Seq<u8>, i: int) -> Option<int>
    decreases s.len() - i,
{
    if i < 0 || i + 1 >= s.len() {
        None
    } else if s[i] == 58 && s[i + 1] == 58 {
        Some(i)
    } else {
        double_colon(s, i + 1)
    }
}

/// The number that groups make up, sixteen bits to a group.
pub open spec fn joined_groups(g: Seq<int>) -> int
    decreases g.len(),
{
    if g.len() == 0 {
        0
    } else {
        0x1_0000 * joined_groups(g.drop_last()) + g.last()
    }
}

/// So many groups of zero.
pub open spec fn zero_groups(n: int) -> Seq<int> {
    Seq::new(n as nat, |i: int| 0int)
}

/// The eight groups that a text writes: all of them, or fewer with two colons where zeros are
/// left out.
pub open spec fn ipv6_groups(s: Seq<u8>) -> Option<Seq<int>> {
    match double_colon(s, 0) {
        None => match group_list(s, true) {
            Some(g) => if g.len() == 8 {
                Some(g)
            } else {
                None
            },
            None => None,
        },
        Some(k) => match (group_list(s.take(k), false), group_list(s.skip(k + 2), true)) {
            (Some(h), Some(t)) => if h.len() + t.len() <= 7 {
                Some(h + zero_groups(8 - h.len() - t.len()) + t)
            } else {
                None
            },
            _ => None,
        },
    }
}

/// The address that a text writes.
pub open spec fn ip_text(s: Seq<u8>) -> Option<IpAddr> {
    match ipv4_text(s) {
        Some(a) => Some(IpAddr::V4(a)),
        None => match ipv6_groups(s) {
            Some(g) => Some(IpAddr::V6(joined_groups(g) as u128)),
            None => None,
        },
    }
}

// ---------------------------------------------------------------------------------------------
// The reader

spec fn views(v: Seq<Vec<u8>>) -> Seq<Seq<u8>> {
    Seq::new(v.len(), |i: int| v[i]@)
}

proof fn byte_at_bounds(s: Seq<u8>, b: u8, i: int)
    requires
        0 <= i,
    ensures
        byte_at(s, b, i) matches Some(k) ==> i <= k < s.len() && s[k] == b,
    decreases s.len() - i,
{
    if i < s.len() && s[i] != b {
        byte_at_bounds(s, b, i + 1);
    }
}

proof fn byte_at_shifted(s: Seq<u8>, b: u8, k: int, i: int)
    requires
        0 <= k,
        0 <= i,
        k + i <= s.len(),
    ensures
        byte_at(s.skip(k), b, i) == match byte_at(s, b, k + i) {
            Some(j) => Some(j - k),
            None => None,
        },
    decreases s.len() - k - i,
{
    if k + i < s.len() {
        assert(s.skip(k)[i] == s[k + i]);
        byte_at_shifted(s, b, k, i + 1);
    }
}

fn split_fields(s: &[u8], sep: u8) -> (r: Vec<Vec<u8>>)
    ensures
        views(r@) == fields(s@, sep),
        r.len() >= 1,
{
    let mut out: Vec<Vec<u8>> = Vec::new();
    let mut start: usize = 0;
    let mut i: usize = 0;
    proof {
        assert(s@.skip(0) =~= s@);
        assert(views(out@) + fields(s@, sep) =~= fields(s@, sep));
    }
    while i < s.len()
        invariant
            start <= i <= s.len(),
            fields(s@, sep) == views(out@) + fields(s@.skip(start as int), sep),
            byte_at(s@, sep, start as int) == byte_at(s@, sep, i as int),
        decreases s.len() - i,
    {
        if s[i] == sep {
            let field = crate::bencode::copy_range(s, start, i);
            let ghost before = views(out@);
            proof {
                byte_at_shifted(s@, sep, start as int, 0);
                let rest = s@.skip(start as int);
                assert(byte_at(rest, sep, 0) == Some((i - start) as int));
                assert(rest.take(i - start) =~= field@);
                assert(rest.skip(i - start + 1) =~= s@.skip(i + 1));
            }
            out.push(field);
            proof {
                assert(views(out@) =~= before.push(field@));
                assert(before + (seq![field@] + fields(s@.skip(i + 1), sep)) =~= views(out@)
                    + fields(s@.skip(i + 1), sep));
            }
            start = i + 1;
        }
        i = i + 1;
    }
    let field = crate::bencode::copy_range(s, start, s.len());
    let ghost before = views(out@);
    proof {
        byte_at_shifted(s@, sep, start as int, 0);
        assert(s@.skip(start as int) =~= field@);
    }
    out.push(field);
    proof {
        assert(views(out@) =~= before + seq![field@]);
    }
    out
}

fn read_octet(s: &[u8]) -> (r: Option<u32>)
    ensures
        match r {
            Some(n) => octet(s@) == Some(n as int) && n < 256,
            None => octet(s@) is None,
        },
{
    if s.len() == 0 || s.len() > 3 {
        return None;
    }
    if s.len() > 1 && s[0] == 48 {
        return None;
    }
    let mut n: u32 = 0;
    let mut i: usize = 0;
    assert(s@.take(0) =~= Seq::<u8>::empty());
    while i < s.len()
        invariant
            i <= s.len() <= 3,
            octet(s@) matches Some(_) ==> decimal_value(s@) is Some,
            decimal_value(s@.take(i as int)) == Some(n as int),
            i == 0 ==> n == 0,
            i <= 1 ==> n < 10,
            i <= 2 ==> n < 100,
            n < 1000,
        decreases s.len() - i,
    {
        let ghost t = s@.take(i + 1);
        assert(t.drop_last() =~= s@.take(i as int));
        assert(t.last() == s@[i as int]);
        if s[i] < 48 || s[i] > 57 {
            proof {
                assert(decimal_value(t) is None);
                prefix_must_be_decimal(s@, i + 1);
            }
            return None;
        }
        n = 10 * n + (s[i] - 48) as u32;
        i = i + 1;
    }
    assert(s@.take(s.len() as int) =~= s@);
    if n < 256 {
        Some(n)
    } else {
        None
    }
}

proof fn prefix_must_be_decimal(s: Seq<u8>, n: int)
    requires
        0 <= n <= s.len(),
        decimal_value(s.take(n)) is None,
    ensures
        decimal_value(s) is None,
    decreases s.len() - n,
{
    if n < s.len() {
        let t = s.take(n + 1);
        assert(t.drop_last() =~= s.take(n));
        prefix_must_be_decimal(s, n + 1);
    } else {
        assert(s.take(n) =~= s);
    }
}

proof fn prefix_must_be_hexadecimal(s: Seq<u8>, n: int)
    requires
        0 <= n <= s.len(),
        hexadecimal_value(s.take(n)) is None,
    ensures
        hexadecimal_value(s) is None,
    decreases s.len() - n,
{
    if n < s.len() {
        let t = s.take(n + 1);
        assert(t.drop_last() =~= s.take(n));
        prefix_must_be_hexadecimal(s, n + 1);
    } else {
        assert(s.take(n) =~= s);
    }
}

/// The address that four numbers with dots between them write, where a text is one
pub fn parse_ipv4(s: &[u8]) -> (r: Option<u32>)
    ensures
        r == ipv4_text(s@),
{
    let f = split_fields(s, 46);
    let ghost v = fields(s@, 46);
    assert(v.len() == f.len());
    if f.len() != 4 {
        return None;
    }
    assert(v[0] == f@[0]@ && v[1] == f@[1]@ && v[2] == f@[2]@ && v[3] == f@[3]@);
    let a: u32 = match read_octet(f[0].as_slice()) {
        Some(n) => n,
        None => return None,
    };
    let b: u32 = match read_octet(f[1].as_slice()) {
        Some(n) => n,
        None => return None,
    };
    let c: u32 = match read_octet(f[2].as_slice()) {
        Some(n) => n,
        None => return None,
    };
    let d: u32 = match read_octet(f[3].as_slice()) {
        Some(n) => n,
        None => return None,
    };
    Some(a * 0x100_0000 + b * 0x1_0000 + c * 0x100 + d)
}

fn read_group(s: &[u8]) -> (r: Option<u32>)
    ensures
        match r {
            Some(n) => group(s@) == Some(n as int) && n < 0x1_0000,
            None => group(s@) is None,
        },
{
    if s.len() == 0 || s.len() > 4 {
        return None;
    }
    let mut n: u32 = 0;
    let mut i: usize = 0;
    assert(s@.take(0) =~= Seq::<u8>::empty());
    while i < s.len()
        invariant
            i <= s.len() <= 4,
            hexadecimal_value(s@.take(i as int)) == Some(n as int),
            i == 0 ==> n == 0,
            i <= 1 ==> n < 0x10,
            i <= 2 ==> n < 0x100,
            i <= 3 ==> n < 0x1000,
            n < 0x1_0000,
        decreases s.len() - i,
    {
        let ghost t = s@.take(i + 1);
        assert(t.drop_last() =~= s@.take(i as int));
        assert(t.last() == s@[i as int]);
        let b: u8 = s[i];
        let d: u8 = if 48 <= b && b <= 57 {
            b - 48
        } else if 65 <= b && b <= 70 {
            b - 55
        } else if 97 <= b && b <= 102 {
            b - 87
        } else {
            proof {
                assert(hexadecimal_value(t) is None);
                prefix_must_be_hexadecimal(s@, i + 1);
            }
            return None;
        };
        n = 16 * n + d as u32;
        i = i + 1;
    }
    assert(s@.take(s.len() as int) =~= s@);
    Some(n)
}

spec fn numbers(v: Seq<u32>) -> Seq<int> {
    Seq::new(v.len(), |i: int| v[i] as int)
}

proof fn groups_need_all(f: Seq<Seq<u8>>, m: int, n: int)
    requires
        m <= n,
        groups(f, m) is None,
    ensures
        groups(f, n) is None,
    decreases n - m,
{
    if m < n {
        groups_need_all(f, m, n - 1);
    }
}

fn read_groups(f: &Vec<Vec<u8>>, n: usize) -> (r: Option<Vec<u32>>)
    requires
        n <= f.len(),
    ensures
        match r {
            Some(g) => groups(views(f@), n as int) == Some(numbers(g@)) && g.len() == n && forall|
                i: int,
            |
                0 <= i < g.len() ==> #[trigger] g@[i] < 0x1_0000,
            None => groups(views(f@), n as int) is None,
        },
{
    let ghost v = views(f@);
    let mut g: Vec<u32> = Vec::new();
    let mut i: usize = 0;
    assert(numbers(g@) =~= Seq::<int>::empty());
    while i < n
        invariant
            i <= n <= f.len(),
            v == views(f@),
            g.len() == i,
            groups(v, i as int) == Some(numbers(g@)),
            forall|k: int| 0 <= k < g.len() ==> #[trigger] g@[k] < 0x1_0000,
        decreases n - i,
    {
        assert(v[i as int] == f@[i as int]@);
        match read_group(f[i].as_slice()) {
            Some(x) => {
                let ghost before = numbers(g@);
                g.push(x);
                assert(numbers(g@) =~= before.push(x as int));
            },
            None => {
                proof {
                    assert(groups(v, i + 1) is None);
                    groups_need_all(v, i + 1, n as int);
                }
                return None;
            },
        }
        i = i + 1;
    }
    Some(g)
}

fn read_group_list(s: &[u8], dotted: bool) -> (r: Option<Vec<u32>>)
    ensures
        match r {
            Some(g) => group_list(s@, dotted) == Some(numbers(g@)) && forall|i: int|
                0 <= i < g.len() ==> #[trigger] g@[i] < 0x1_0000,
            None => group_list(s@, dotted) is None,
        },
{
    if s.len() == 0 {
        let g: Vec<u32> = Vec::new();
        assert(numbers(g@) =~= Seq::<int>::empty());
        return Some(g);
    }
    let f = split_fields(s, 58);
    let ghost v = fields(s@, 58);
    assert(v.len() == f.len());
    assert(v.last() == f@[f@.len() - 1]@);
    if dotted {
        match parse_ipv4(f[f.len() - 1].as_slice()) {
            Some(a) => {
                match read_groups(&f, f.len() - 1) {
                    Some(g) => {
                        let mut g = g;
                        let ghost before = numbers(g@);
                        g.push(a / 0x1_0000);
                        g.push(a % 0x1_0000);
                        assert(numbers(g@) =~= before.push(a as int / 0x1_0000).push(
                            a as int % 0x1_0000,
                        ));
                        return Some(g);
                    },
                    None => return None,
                }
            },
            None => {},
        }
    }
    read_groups(&f, f.len())
}

fn find_double_colon(s: &[u8]) -> (r: Option<usize>)
    ensures
        match r {
            Some(k) => double_colon(s@, 0) == Some(k as int) && k + 1 < s.len(),
            None => double_colon(s@, 0) is None,
        },
{
    if s.len() < 2 {
        return None;
    }
    let mut i: usize = 0;
    while i < s.len() - 1
        invariant
            s.len() >= 2,
            i <= s.len() - 1,
            double_colon(s@, 0) == double_colon(s@, i as int),
        decreases s.len() - i,
    {
        if s[i] == 58 && s[i + 1] == 58 {
            return Some(i);
        }
        i = i + 1;
    }
    None
}

proof fn joined_groups_bound(g: Seq<int>)
    requires
        g.len() <= 8,
        forall|i: int| 0 <= i < g.len() ==> 0 <= #[trigger] g[i] < 0x1_0000,
    ensures
        0 <= joined_groups(g),
        g.len() == 0 ==> joined_groups(g) < 1,
        g.len() == 1 ==> joined_groups(g) < 0x1_0000,
        g.len() == 2 ==> joined_groups(g) < 0x1_0000_0000,
        g.len() == 3 ==> joined_groups(g) < 0x1_0000_0000_0000,
        g.len() == 4 ==> joined_groups(g) < 0x1_0000_0000_0000_0000,
        g.len() == 5 ==> joined_groups(g) < 0x1_0000_0000_0000_0000_0000,
        g.len() == 6 ==> joined_groups(g) < 0x1_0000_0000_0000_0000_0000_0000,
        g.len() == 7 ==> joined_groups(g) < 0x1_0000_0000_0000_0000_0000_0000_0000,
        joined_groups(g) <= u128::MAX,
    decreases g.len(),
{
    if g.len() > 0 {
        joined_groups_bound(g.drop_last());
        assert(g.last() == g[g.len() - 1]);
    }
}

fn join_groups(g: &Vec<u32>) -> (r: u128)
    requires
        g.len() == 8,
        forall|i: int| 0 <= i < g.len() ==> #[trigger] g@[i] < 0x1_0000,
    ensures
        r == joined_groups(numbers(g@)),
{
    let ghost v = numbers(g@);
    let mut n: u128 = 0;
    let mut i: usize = 0;
    assert(v.take(0) =~= Seq::<int>::empty());
    while i < g.len()
        invariant
            i <= g.len() == 8,
            v == numbers(g@),
            forall|k: int| 0 <= k < g.len() ==> #[trigger] g@[k] < 0x1_0000,
            n == joined_groups(v.take(i as int)),
        decreases g.len() - i,
    {
        proof {
            let t = v.take(i + 1);
            assert(t.drop_last() =~= v.take(i as int));
            assert(t.last() == g@[i as int] as int);
            assert forall|k: int| 0 <= k < t.len() implies 0 <= #[trigger] t[k] < 0x1_0000 by {
                assert(g@[k] < 0x1_0000);
            }
            joined_groups_bound(t);
            joined_groups_bound(t.drop_last());
        }
        n = 0x1_0000 * n + g[i] as u128;
        i = i + 1;
    }
    assert(v.take(8) =~= v);
    n
}

fn parse_ipv6(s: &[u8]) -> (r: Option<u128>)
    ensures
        match r {
            Some(a) => ipv6_groups(s@) matches Some(g) && a == joined_groups(g),
            None => ipv6_groups(s@) is None,
        },
{
    match find_double_colon(s) {
        None => match read_group_list(s, true) {
            Some(g) => if g.len() == 8 {
                Some(join_groups(&g))
            } else {
                None
            },
            None => None,
        },
        Some(k) => {
            let head = crate::bencode::copy_range(s, 0, k);
            let tail = crate::bencode::copy_range(s, k + 2, s.len());
            proof {
                assert(head@ =~= s@.take(k as int));
                assert(tail@ =~= s@.skip(k + 2));
            }
            let h = match read_group_list(head.as_slice(), false) {
                Some(g) => g,
                None => return None,
            };
            let t = match read_group_list(tail.as_slice(), true) {
                Some(g) => g,
                None => return None,
            };
            if h.len() > 7 || t.len() > 7 - h.len() {
                return None;
            }
            let mut all = h;
            let ghost head_groups = numbers(all@);
            let zeros: usize = 8 - all.len() - t.len();
            let mut i: usize = 0;
            assert(head_groups + zero_groups(0) =~= head_groups);
            while i < zeros
                invariant
                    i <= zeros,
                    numbers(all@) == head_groups + zero_groups(i as int),
                    forall|k: int| 0 <= k < all.len() ==> #[trigger] all@[k] < 0x1_0000,
                decreases zeros - i,
            {
                let ghost before = numbers(all@);
                all.push(0);
                proof {
                    assert(numbers(all@) =~= before.push(0));
                    assert(zero_groups(i as int).push(0) =~= zero_groups(i + 1));
                    assert((head_groups + zero_groups(i as int)).push(0) =~= head_groups
                        + zero_groups(i as int).push(0));
                }
                i = i + 1;
            }
            let ghost before = all@;
            let mut t = t;
            let ghost tail_groups = t@;
            all.append(&mut t);
            proof {
                assert(all@ =~= before + tail_groups);
                assert(numbers(before).len() == head_groups.len() + zeros);
                assert(numbers(all@) =~= numbers(before) + numbers(tail_groups));
            }
            assert(all.len() == 8) by {
                assert(numbers(all@).len() == 8);
            }
            Some(join_groups(&all))
        },
    }
}

/// The address that a text writes, where it writes one
pub fn parse_ip(s: &[u8]) -> (r: Option<IpAddr>)
    ensures
        r == ip_text(s@),
{
    match parse_ipv4(s) {
        Some(a) => Some(IpAddr::V4(a)),
        None => match parse_ipv6(s) {
            Some(a) => Some(IpAddr::V6(a)),
            None => None,
        },
    }
}

} // verus!
