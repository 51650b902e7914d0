//! Which address of this machine a router is to forward a port to.

use crate::ip_text::{ipv4_text, parse_ipv4};
use crate::net::{IpAddr, SocketAddr};
use vstd::prelude::*;
use vstd::string::*;
use vstd::utf8::*;

verus! {

/// How long a forwarding lasts, in seconds
pub const LEASE_DURATION_SECS: u32 = 300;

/// How long to wait before a forwarding is renewed, in seconds: three quarters of what it lasts
pub const RENEWAL_SECS: u32 = 225;

/// The flags of an interface that is up and not a virtual one, or more
pub const PHYSICAL_FLAGS: u32 = 69699;

/// A network interface of this machine.
#[derive(Debug)]
pub struct Interface {
    pub name: String,
    pub flags: u32,
    /// Its first short address
    pub ipv4: Option<u32>,
}

/// Whether a character is white space.
pub open spec fn is_space(c: char) -> bool {
    let n = c as u32;
    ||| 9 <= n <= 13
    ||| n == 32
    ||| n == 0x85
    ||| n == 0xa0
    ||| n == 0x1680
    ||| 0x2000 <= n <= 0x200a
    ||| n == 0x2028
    ||| n == 0x2029
    ||| n == 0x202f
    ||| n == 0x205f
    ||| n == 0x3000
}

/// The position at or behind `i` of a character that is no white space.
pub open spec fn word_start(s: Seq<char>, i: int) -> int
    decreases s.len() - i,
{
    if 0 <= i < s.len() && is_space(s[i]) {
        word_start(s, i + 1)
    } else {
        i
    }
}

/// The position at or behind `i` of white space, or the end.
pub open spec fn word_end(s: Seq<char>, i: int) -> int
    decreases s.len() - i,
{
    if 0 <= i < s.len() && !is_space(s[i]) {
        word_end(s, i + 1)
    } else {
        i
    }
}

/// The first word at or behind `i`.
pub open spec fn first_word(s: Seq<char>, i: int) -> Option<Seq<char>> {
    let a = word_start(s, i);
    let b = word_end(s, a);
    if a < b <= s.len() {
        Some(s.subrange(a, b))
    } else {
        None
    }
}

/// The position at or behind `i` of a text within another.
pub open spec fn text_position(s: Seq<char>, t: Seq<char>, i: int) -> Option<int>
    decreases s.len() + 1 - i,
{
    if i < 0 || i + t.len() > s.len() {
        None
    } else if s.subrange(i, i + t.len() as int) == t {
        Some(i)
    } else {
        text_position(s, t, i + 1)
    }
}

/// Whether a text starts with another.
pub open spec fn starts(s: Seq<char>, t: Seq<char>) -> bool {
    s.len() >= t.len() && s.take(t.len() as int) == t
}

/// The address that the first word at or behind `i` writes.
pub open spec fn word_address(s: Seq<char>, i: int) -> Option<u32> {
    match first_word(s, i) {
        Some(w) => ipv4_text(encode_utf8(w)),
        None => None,
    }
}

/// The address in what `ip route get` prints: the word behind `src`.
pub open spec fn route_address(s: Seq<char>) -> Option<u32> {
    match text_position(s, "src "@, 0) {
        Some(k) => {
            let tail = k + 4;
            let end = match text_position(s, "src "@, tail) {
                Some(e) => e,
                None => s.len() as int,
            };
            word_address(s.subrange(tail, end), 0)
        },
        None => None,
    }
}

/// Whether an interface leads somewhere, and the address that it has then.
pub open spec fn interface_address(f: Interface) -> Option<u32> {
    if starts(f.name@, "lo"@) || starts(f.name@, "docker"@) || starts(f.name@, "br-"@) {
        None
    } else if f.flags >= 69699 {
        match f.ipv4 {
            Some(a) => if a / 0x100_0000 == 127 || a / 0x1_0000 == 0xa9fe {
                None
            } else {
                Some(a)
            },
            None => None,
        }
    } else {
        None
    }
}

/// The first address among those of the interfaces at or behind `i`.
pub open spec fn interfaces_address(l: Seq<Interface>, i: int) -> Option<u32>
    decreases l.len() - i,
{
    if i < 0 || i >= l.len() {
        None
    } else {
        match interface_address(l[i]) {
            Some(a) => Some(a),
            None => interfaces_address(l, i + 1),
        }
    }
}

/// The address of this machine, from what commands print and the interfaces are.
pub open spec fn local_address(
    hostname: Option<Seq<char>>,
    route: Option<Seq<char>>,
    interfaces: Seq<Interface>,
) -> Option<u32> {
    let first = match hostname {
        Some(s) => word_address(s, 0),
        None => None,
    };
    let second = match route {
        Some(s) => route_address(s),
        None => None,
    };
    if first is Some {
        first
    } else if second is Some {
        second
    } else {
        interfaces_address(interfaces, 0)
    }
}

fn space(c: char) -> (r: bool)
    ensures
        r == is_space(c),
{
    let n: u32 = c as u32;
    (9 <= n && n <= 13) || n == 32 || n == 0x85 || n == 0xa0 || n == 0x1680 || (0x2000 <= n && n
        <= 0x200a) || n == 0x2028 || n == 0x2029 || n == 0x202f || n == 0x205f || n == 0x3000
}

proof fn words_lie_within(s: Seq<char>, i: int)
    requires
        0 <= i <= s.len(),
    ensures
        i <= word_start(s, i) <= s.len(),
        i <= word_end(s, i) <= s.len(),
    decreases s.len() - i,
{
    if i < s.len() {
        words_lie_within(s, i + 1);
    }
}

fn parse_first_word(s: &str) -> (r: Option<u32>)
    ensures
        r == word_address(s@, 0),
{
    let n: usize = s.unicode_len();
    let mut a: usize = 0;
    while a < n && space(s.get_char(a))
        invariant
            a <= n,
            n == s@.len(),
            word_start(s@, 0) == word_start(s@, a as int),
        decreases n - a,
    {
        a = a + 1;
    }
    let mut b: usize = a;
    while b < n && !space(s.get_char(b))
        invariant
            a <= b <= n,
            n == s@.len(),
            word_end(s@, a as int) == word_end(s@, b as int),
        decreases n - b,
    {
        b = b + 1;
    }
    if a < b {
        parse_ipv4(s.substring_char(a, b).as_bytes())
    } else {
        None
    }
}

fn find_src(s: &str, from: usize) -> (r: Option<usize>)
    requires
        from <= s@.len(),
    ensures
        match r {
            Some(k) => text_position(s@, "src "@, from as int) == Some(k as int) && k + 4 <= s@.len(),
            None => text_position(s@, "src "@, from as int) is None,
        },
{
    proof {
        reveal_strlit("src ");
        assert("src "@ =~= seq!['s', 'r', 'c', ' ']);
    }
    let n: usize = s.unicode_len();
    if n < 4 {
        return None;
    }
    let mut i: usize = from;
    while i <= n - 4
        invariant
            from <= i <= n + 1,
            n == s@.len(),
            n >= 4,
            "src "@ =~= seq!['s', 'r', 'c', ' '],
            text_position(s@, "src "@, from as int) == text_position(s@, "src "@, i as int),
        decreases n + 1 - i,
    {
        let hit: bool = s.get_char(i) == 's' && s.get_char(i + 1) == 'r' && s.get_char(i + 2) == 'c'
            && s.get_char(i + 3) == ' ';
        proof {
            let part = s@.subrange(i as int, i + 4);
            if hit {
                assert(part =~= "src "@);
            } else {
                assert(part != "src "@) by {
                    if part == "src "@ {
                        assert(part[0] == 's' && part[1] == 'r' && part[2] == 'c' && part[3] == ' ');
                    }
                }
            }
        }
        if hit {
            return Some(i);
        }
        i = i + 1;
    }
    None
}

fn parse_route(s: &str) -> (r: Option<u32>)
    ensures
        r == route_address(s@),
{
    let n: usize = s.unicode_len();
    match find_src(s, 0) {
        Some(k) => {
            let tail: usize = k + 4;
            let end: usize = match find_src(s, tail) {
                Some(e) => e,
                None => n,
            };
            proof {
                text_position_behind(s@, "src "@, tail as int);
            }
            parse_first_word(s.substring_char(tail, end))
        },
        None => None,
    }
}

proof fn text_position_behind(s: Seq<char>, t: Seq<char>, i: int)
    requires
        0 <= i,
    ensures
        text_position(s, t, i) matches Some(k) ==> i <= k && k + t.len() <= s.len(),
    decreases s.len() + 1 - i,
{
    if i + t.len() <= s.len() && s.subrange(i, i + t.len() as int) != t {
        text_position_behind(s, t, i + 1);
    }
}

fn starts_with(s: &str, t: &str) -> (r: bool)
    ensures
        r == starts(s@, t@),
{
    let n: usize = t.unicode_len();
    if s.unicode_len() < n {
        return false;
    }
    let head = s.substring_char(0, n);
    assert(head@ =~= s@.take(n as int));
    crate::text::same_text(head, t)
}

fn usable_address(f: &Interface) -> (r: Option<u32>)
    ensures
        r == interface_address(*f),
{
    let name = f.name.as_str();
    if starts_with(name, "lo") || starts_with(name, "docker") || starts_with(name, "br-") {
        return None;
    }
    if f.flags >= PHYSICAL_FLAGS {
        match f.ipv4 {
            Some(a) => {
                if a / 0x100_0000 == 127 || a / 0x1_0000 == 0xa9fe {
                    None
                } else {
                    Some(a)
                }
            },
            None => None,
        }
    } else {
        None
    }
}

fn first_usable(interfaces: &Vec<Interface>) -> (r: Option<u32>)
    ensures
        r == interfaces_address(interfaces@, 0),
{
    let mut i: usize = 0;
    while i < interfaces.len()
        invariant
            i <= interfaces.len(),
            interfaces_address(interfaces@, 0) == interfaces_address(interfaces@, i as int),
        decreases interfaces.len() - i,
    {
        match usable_address(&interfaces[i]) {
            Some(a) => return Some(a),
            None => {},
        }
        i = i + 1;
    }
    None
}

/// Get local IPv4 address for UPnP: the first that `hostname -I` prints, or else the source of a
/// route, or else the first of an interface that leads somewhere
pub fn get_local_ipv4(
    hostname: Option<String>,
    route: Option<String>,
    interfaces: &Vec<Interface>,
) -> (r: Option<u32>)
    ensures
        r == local_address(
            crate::text::opt_text(hostname),
            crate::text::opt_text(route),
            interfaces@,
        ),
{
    match &hostname {
        Some(s) => match parse_first_word(s.as_str()) {
            Some(a) => return Some(a),
            None => {},
        },
        None => {},
    }
    match &route {
        Some(s) => match parse_route(s.as_str()) {
            Some(a) => return Some(a),
            None => {},
        },
        None => {},
    }
    first_usable(interfaces)
}

/// A port that a router forwards.
#[derive(Debug, Clone, Copy, PartialEq, Eq, Structural)]
pub struct PortMapping {
    pub internal_ip: u32,
    pub internal_port: u16,
    pub external_ip: IpAddr,
    pub external_port: u16,
}

impl PortMapping {
    /// A forwarding that was set up
    pub fn new(internal_ip: u32, internal_port: u16, external_ip: IpAddr, external_port: u16) -> (r:
        Self)
        ensures
            r == (PortMapping { internal_ip, internal_port, external_ip, external_port }),
    {
        PortMapping { internal_ip, internal_port, external_ip, external_port }
    }

    /// Get the external (public) address
    pub fn external_addr(&self) -> (r: SocketAddr)
        ensures
            r == (SocketAddr { ip: self.external_ip, port: self.external_port }),
    {
        SocketAddr { ip: self.external_ip, port: self.external_port }
    }
}

} // verus!
