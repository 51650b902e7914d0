//! How addresses are written, and which one this machine has.

use crate::decimal::{decimal, is_digit};
use crate::ip_text::{
    byte_at, decimal_value, double_colon, fields, group, group_list, groups, hexadecimal_value,
    ip_text, ipv4_text, ipv6_groups, joined_groups, octet, zero_groups,
};
use crate::net::IpAddr;
use crate::port_mapping::{
    first_word, interface_address, interfaces_address, is_space, local_address, route_address,
    starts, text_position, word_address, word_end, word_start, Interface,
};
use crate::types::hex_value;
use vstd::prelude::*;
use vstd::string::*;
use vstd::utf8::*;

verus! {

proof fn byte_is_first(s: Seq<u8>, b: u8, i: int, k: int)
    requires
        0 <= i <= k < s.len(),
        s[k] == b,
        forall|j: int| i <= j < k ==> s[j] != b,
    ensures
        byte_at(s, b, i) == Some(k),
    decreases k - i,
{
    if i < k {
        byte_is_first(s, b, i + 1, k);
    }
}

proof fn byte_is_nowhere(s: Seq<u8>, b: u8, i: int)
    requires
        0 <= i <= s.len(),
        forall|j: int| i <= j < s.len() ==> s[j] != b,
    ensures
        byte_at(s, b, i) is None,
    decreases s.len() - i,
{
    if i < s.len() {
        byte_is_nowhere(s, b, i + 1);
    }
}

/// What stands before the first separator is the first field, and what stands behind it are the
/// others; without a separator all is one field.
pub proof fn fields_are_set_apart(x: Seq<u8>, sep: u8, y: Seq<u8>)
    requires
        forall|j: int| 0 <= j < x.len() ==> x[j] != sep,
    ensures
        fields(x, sep) == seq![x],
        fields(x + seq![sep] + y, sep) == seq![x] + fields(y, sep),
{
    byte_is_nowhere(x, sep, 0);
    let s = x + seq![sep] + y;
    let k = x.len() as int;
    assert forall|j: int| 0 <= j < k implies s[j] != sep by {
        assert(s[j] == x[j]);
    }
    assert(s[k] == sep);
    byte_is_first(s, sep, 0, k);
    assert(s.take(k) =~= x);
    assert(s.skip(k + 1) =~= y);
}

proof fn number_under_256(n: nat)
    requires
        n < 256,
    ensures
        octet(decimal(n)) == Some(n as int),
        forall|j: int| 0 <= j < decimal(n).len() ==> is_digit(#[trigger] decimal(n)[j]),
{
    reveal_with_fuel(decimal, 3);
    reveal_with_fuel(decimal_value, 4);
    let d = decimal(n);
    if n < 10 {
        assert(d.drop_last() =~= Seq::<u8>::empty());
    } else if n < 100 {
        assert(d.drop_last() =~= decimal(n / 10));
        assert(decimal(n / 10).drop_last() =~= Seq::<u8>::empty());
    } else {
        assert(d.drop_last() =~= decimal(n / 10));
        assert(decimal(n / 10).drop_last() =~= decimal(n / 10 / 10));
        assert(decimal(n / 10 / 10).drop_last() =~= Seq::<u8>::empty());
    }
}

/// Four numbers under 256 with dots between them are the address that they make up, the first the
/// highest.
pub proof fn dotted_numbers_are_an_address(a: u8, b: u8, c: u8, d: u8)
    ensures
        ip_text(
            decimal(a as nat) + seq![46u8] + (decimal(b as nat) + seq![46u8] + (decimal(c as nat) + seq![
                46u8,
            ] + decimal(d as nat))),
        ) == Some(IpAddr::V4((a * 0x100_0000 + b * 0x1_0000 + c * 0x100 + d) as u32)),
{
    number_under_256(a as nat);
    number_under_256(b as nat);
    number_under_256(c as nat);
    number_under_256(d as nat);
    let z = decimal(d as nat);
    let y = decimal(c as nat) + seq![46u8] + z;
    let x = decimal(b as nat) + seq![46u8] + y;
    assert forall|j: int| 0 <= j < decimal(a as nat).len() implies decimal(a as nat)[j] != 46 by {
        assert(is_digit(decimal(a as nat)[j]));
    }
    assert forall|j: int| 0 <= j < decimal(b as nat).len() implies decimal(b as nat)[j] != 46 by {
        assert(is_digit(decimal(b as nat)[j]));
    }
    assert forall|j: int| 0 <= j < decimal(c as nat).len() implies decimal(c as nat)[j] != 46 by {
        assert(is_digit(decimal(c as nat)[j]));
    }
    assert forall|j: int| 0 <= j < z.len() implies z[j] != 46 by {
        assert(is_digit(z[j]));
    }
    fields_are_set_apart(decimal(a as nat), 46, x);
    fields_are_set_apart(decimal(b as nat), 46, y);
    fields_are_set_apart(decimal(c as nat), 46, z);
    fields_are_set_apart(z, 46, z);
    let s = decimal(a as nat) + seq![46u8] + x;
    let f = fields(s, 46);
    assert(f =~= seq![decimal(a as nat), decimal(b as nat), decimal(c as nat), z]);
}

/// A number of more than three digits, with a zero in front or of 256 and more is none of an
/// address, nor is one with anything but digits.
pub proof fn other_numbers_are_none_of_an_address(s: Seq<u8>)
    ensures
        s.len() == 0 || s.len() > 3 ==> octet(s) is None,
        s.len() > 1 && s[0] == 48 ==> octet(s) is None,
        decimal_value(s) is Some && decimal_value(s)->0 >= 256 ==> octet(s) is None,
        decimal_value(s) is None ==> octet(s) is None,
{
}

/// Groups make up a number, each worth sixteen bits more than the one behind it.
pub proof fn groups_make_up_a_number(g: Seq<int>, x: int)
    ensures
        joined_groups(g.push(x)) == 0x1_0000 * joined_groups(g) + x,
        joined_groups(Seq::empty()) == 0,
{
    assert(g.push(x).drop_last() =~= g);
}

proof fn groups_are_read(f: Seq<Seq<u8>>, n: int)
    requires
        0 <= n <= f.len(),
        forall|i: int| 0 <= i < n ==> group(#[trigger] f[i]) is Some,
    ensures
        groups(f, n) is Some,
        groups(f, n)->0 == Seq::new(n as nat, |i: int| group(f[i])->0),
    decreases n,
{
    if n > 0 {
        groups_are_read(f, n - 1);
        assert(group(f[n - 1]) is Some);
        assert(groups(f, n)->0 =~= Seq::new(n as nat, |i: int| group(f[i])->0));
    } else {
        assert(groups(f, n)->0 =~= Seq::new(n as nat, |i: int| group(f[i])->0));
    }
}

/// Two colons stand for as many zeros as are missing.
pub proof fn two_colons_stand_for_zeros(s: Seq<u8>, k: int)
    requires
        double_colon(s, 0) == Some(k),
    ensures
        ({
            let h = group_list(s.take(k), false);
            let t = group_list(s.skip(k + 2), true);
            &&& h is Some && t is Some && h->0.len() + t->0.len() <= 7 ==> {
                let g = ipv6_groups(s);
                &&& g is Some && g->0.len() == 8
                &&& g->0.take(h->0.len() as int) == h->0
                &&& g->0.skip(8 - t->0.len()) == t->0
                &&& forall|i: int| h->0.len() <= i < 8 - t->0.len() ==> g->0[i] == 0
            }
            &&& h is None || t is None || h->0.len() + t->0.len() > 7 ==> ipv6_groups(s) is None
        }),
{
    let h = group_list(s.take(k), false);
    let t = group_list(s.skip(k + 2), true);
    if h is Some && t is Some && h->0.len() + t->0.len() <= 7 {
        let g = ipv6_groups(s)->0;
        assert(g == h->0 + zero_groups(8 - h->0.len() - t->0.len()) + t->0);
        assert(g.take(h->0.len() as int) =~= h->0);
        assert(g.skip(8 - t->0.len()) =~= t->0);
    }
}

/// Fields with colons between them are the groups that each writes, in order; one that is none
/// spoils all.
pub proof fn fields_are_groups(s: Seq<u8>)
    requires
        s.len() > 0,
        ipv4_text(fields(s, 58).last()) is None,
    ensures
        (forall|i: int| 0 <= i < fields(s, 58).len() ==> group(#[trigger] fields(s, 58)[i]) is Some)
            ==> group_list(s, true) == Some(
            Seq::new(fields(s, 58).len(), |i: int| group(fields(s, 58)[i])->0),
        ),
{
    let f = fields(s, 58);
    if forall|i: int| 0 <= i < f.len() ==> group(#[trigger] f[i]) is Some {
        groups_are_read(f, f.len() as int);
    }
}

/// Without two colons there must be eight groups, and the address is the number that they make up.
pub proof fn eight_groups_are_an_address(s: Seq<u8>, g: Seq<int>)
    requires
        ipv4_text(s) is None,
        double_colon(s, 0) is None,
        group_list(s, true) == Some(g),
    ensures
        g.len() == 8 ==> ip_text(s) == Some(IpAddr::V6(joined_groups(g) as u128)),
        g.len() != 8 ==> ip_text(s) is None,
{
}

/// Blanks, tabs and line ends are white space, and no other character that is seen in ASCII is.
pub proof fn blanks_and_line_ends_are_space(c: char)
    ensures
        c == ' ' || c == '\t' || c == '\n' || c == '\r' ==> is_space(c),
        '!' <= c <= '~' ==> !is_space(c),
{
}

/// Digits are worth more the further in front they stand, ten times in decimal and sixteen times in
/// hexadecimal notation, and what has none but digits is a number.
pub proof fn digits_in_front_are_worth_more(s: Seq<u8>, d: u8)
    ensures
        decimal_value(s) is Some && 48 <= d <= 57 ==> decimal_value(s.push(d)) == Some(
            10 * decimal_value(s)->0 + (d - 48),
        ),
        !(48 <= d <= 57) ==> decimal_value(s.push(d)) is None,
        hexadecimal_value(s) is Some && hex_value(d) is Some ==> hexadecimal_value(s.push(d)) == Some(
            16 * hexadecimal_value(s)->0 + hex_value(d)->0,
        ),
        hex_value(d) is None ==> hexadecimal_value(s.push(d)) is None,
        decimal_value(Seq::empty()) == Some(0int),
        hexadecimal_value(Seq::empty()) == Some(0int),
{
    assert(s.push(d).drop_last() =~= s);
}

/// A group has one to four hexadecimal digits.
pub proof fn group_has_one_to_four_digits(s: Seq<u8>)
    ensures
        1 <= s.len() <= 4 ==> group(s) == hexadecimal_value(s),
        s.len() == 0 || s.len() > 4 ==> group(s) is None,
{
}

proof fn spaces_are_skipped(s: Seq<char>, i: int, a: int)
    requires
        0 <= i <= a <= s.len(),
        forall|j: int| i <= j < a ==> is_space(#[trigger] s[j]),
        a < s.len() ==> !is_space(s[a]),
    ensures
        word_start(s, i) == a,
    decreases a - i,
{
    if i < a {
        assert(is_space(s[i]));
        spaces_are_skipped(s, i + 1, a);
    }
}

proof fn word_goes_on(s: Seq<char>, a: int, b: int)
    requires
        0 <= a <= b <= s.len(),
        forall|j: int| a <= j < b ==> !is_space(#[trigger] s[j]),
        b < s.len() ==> is_space(s[b]),
    ensures
        word_end(s, a) == b,
    decreases b - a,
{
    if a < b {
        assert(!is_space(s[a]));
        word_goes_on(s, a + 1, b);
    }
}

/// The first word is what stands between white space, and in white space there is none.
pub proof fn first_word_stands_between_spaces(s: Seq<char>, a: int, b: int)
    requires
        0 <= a <= b <= s.len(),
        forall|j: int| 0 <= j < a ==> is_space(#[trigger] s[j]),
        forall|j: int| a <= j < b ==> !is_space(#[trigger] s[j]),
        b < s.len() ==> is_space(s[b]),
        a == b ==> a == s.len(),
    ensures
        a < b ==> first_word(s, 0) == Some(s.subrange(a, b)),
        a == b ==> first_word(s, 0) is None,
{
    if a < s.len() {
        assert(!is_space(s[a]));
    }
    spaces_are_skipped(s, 0, a);
    word_goes_on(s, a, b);
}

/// The first command that prints an address decides, and the interfaces only where neither does.
pub proof fn first_source_of_an_address_counts(
    hostname: Seq<char>,
    route: Seq<char>,
    l: Seq<Interface>,
)
    ensures
        word_address(hostname, 0) is Some ==> local_address(Some(hostname), Some(route), l)
            == word_address(hostname, 0),
        word_address(hostname, 0) is None && route_address(route) is Some ==> local_address(
            Some(hostname),
            Some(route),
            l,
        ) == route_address(route),
        route_address(route) is Some ==> local_address(None, Some(route), l) == route_address(route),
        word_address(hostname, 0) is None && route_address(route) is None ==> local_address(
            Some(hostname),
            Some(route),
            l,
        ) == interfaces_address(l, 0),
        local_address(None, None, l) == interfaces_address(l, 0),
{
}

proof fn interfaces_from(l: Seq<Interface>, i: int, k: int)
    requires
        0 <= i <= k <= l.len(),
        forall|j: int| i <= j < k ==> interface_address(#[trigger] l[j]) is None,
        k < l.len() ==> interface_address(l[k]) is Some,
    ensures
        interfaces_address(l, i) == if k < l.len() {
            interface_address(l[k])
        } else {
            None
        },
    decreases k - i,
{
    if i < k {
        assert(interface_address(l[i]) is None);
        interfaces_from(l, i + 1, k);
    }
}

/// Of the interfaces the first that leads somewhere counts.
pub proof fn first_interface_counts(l: Seq<Interface>, k: int)
    requires
        0 <= k <= l.len(),
        forall|j: int| 0 <= j < k ==> interface_address(#[trigger] l[j]) is None,
        k < l.len() ==> interface_address(l[k]) is Some,
    ensures
        k < l.len() ==> interfaces_address(l, 0) == interface_address(l[k]),
        k == l.len() ==> interfaces_address(l, 0) is None,
{
    interfaces_from(l, 0, k);
}

/// An interface leads somewhere where it is up, its name is none of those that virtual ones have,
/// and its address is no loopback and no link-local one.
pub proof fn interface_leads_somewhere(f: Interface, a: u32)
    ensures
        f.name@.len() >= 2 && f.name@.take(2) == "lo"@ ==> interface_address(f) is None,
        f.name@.len() >= 6 && f.name@.take(6) == "docker"@ ==> interface_address(f) is None,
        f.name@.len() >= 3 && f.name@.take(3) == "br-"@ ==> interface_address(f) is None,
        f.flags < 69699 || f.ipv4 is None ==> interface_address(f) is None,
        f.ipv4 == Some(a) && 0x7f00_0000 <= a <= 0x7fff_ffff ==> interface_address(f) is None,
        f.ipv4 == Some(a) && 0xa9fe_0000 <= a <= 0xa9fe_ffff ==> interface_address(f) is None,
        f.ipv4 == Some(a) && f.flags >= 69699 && !(0x7f00_0000 <= a <= 0x7fff_ffff) && !(0xa9fe_0000
            <= a <= 0xa9fe_ffff) && !starts(f.name@, "lo"@) && !starts(f.name@, "docker"@) && !starts(
            f.name@,
            "br-"@,
        ) ==> interface_address(f) == Some(a),
{
    reveal_strlit("lo");
    reveal_strlit("docker");
    reveal_strlit("br-");
}

/// Whether a text stands within another at a place.
pub open spec fn stands_at(s: Seq<char>, t: Seq<char>, j: int) -> bool {
    0 <= j && j + t.len() <= s.len() && s.subrange(j, j + t.len() as int) == t
}

proof fn text_is_first(s: Seq<char>, t: Seq<char>, i: int, k: int)
    requires
        0 <= i <= k,
        stands_at(s, t, k),
        forall|j: int| i <= j < k ==> !#[trigger] stands_at(s, t, j),
    ensures
        text_position(s, t, i) == Some(k),
    decreases k - i,
{
    if i < k {
        assert(!stands_at(s, t, i));
        text_is_first(s, t, i + 1, k);
    }
}

proof fn text_is_nowhere(s: Seq<char>, t: Seq<char>, i: int)
    requires
        0 <= i,
        forall|j: int| i <= j ==> !#[trigger] stands_at(s, t, j),
    ensures
        text_position(s, t, i) is None,
    decreases s.len() + 1 - i,
{
    if i + t.len() <= s.len() {
        assert(!stands_at(s, t, i));
        text_is_nowhere(s, t, i + 1);
    }
}

/// Of what the route is printed as, the word behind the only `src` counts; without one there is no
/// address.
pub proof fn source_of_the_route_counts(s: Seq<char>, k: int)
    ensures
        stands_at(s, "src "@, k) && (forall|j: int|
            0 <= j < k ==> !#[trigger] stands_at(s, "src "@, j)) && (forall|j: int|
            k + 4 <= j ==> !#[trigger] stands_at(s, "src "@, j)) ==> route_address(s)
            == word_address(s.skip(k + 4), 0),
        (forall|j: int| 0 <= j ==> !#[trigger] stands_at(s, "src "@, j)) ==> route_address(
            s,
        ) is None,
{
    reveal_strlit("src ");
    assert("src "@.len() == 4);
    if stands_at(s, "src "@, k) && (forall|j: int|
        0 <= j < k ==> !#[trigger] stands_at(s, "src "@, j)) && (forall|j: int|
        k + 4 <= j ==> !#[trigger] stands_at(s, "src "@, j)) {
        text_is_first(s, "src "@, 0, k);
        text_is_nowhere(s, "src "@, k + 4);
        assert(s.subrange(k + 4, s.len() as int) =~= s.skip(k + 4));
    }
    if forall|j: int| 0 <= j ==> !#[trigger] stands_at(s, "src "@, j) {
        text_is_nowhere(s, "src "@, 0);
    }
}

} // verus!
