//! Hosts: IP addresses in text form, and which hosts are not reachable from
//! the public internet.

use crate::text;
use vstd::prelude::*;

verus! {

// ---------------------------------------------------------------------------
// Numbers in text form
// ---------------------------------------------------------------------------

/// The value of a digit; 16 for a character that is no hexadecimal digit.
pub open spec fn digit_value(c: char) -> int {
    if '0' <= c <= '9' {
        c as int - 48
    } else if 'a' <= c <= 'f' {
        c as int - 87
    } else if 'A' <= c <= 'F' {
        c as int - 55
    } else {
        16
    }
}

/// Every character of `s` is a digit below `radix`.
pub open spec fn all_digits(s: Seq<char>, radix: int) -> bool {
    forall|i: int| 0 <= i < s.len() ==> digit_value(#[trigger] s[i]) < radix
}

/// The number that the digits `s` write in `radix`.
pub open spec fn number(s: Seq<char>, radix: int) -> int
    decreases s.len(),
{
    if s.len() == 0 {
        0
    } else {
        number(s.drop_last(), radix) * radix + digit_value(s.last())
    }
}

/// One part of an IPv4 address: one to three decimal digits without a leading
/// zero, at most 255.
pub open spec fn octet(s: Seq<char>) -> Option<int> {
    if 1 <= s.len() <= 3 && all_digits(s, 10) && (s.len() == 1 || s[0] != '0') && number(s, 10)
        <= 255 {
        Some(number(s, 10))
    } else {
        None
    }
}

/// One group of an IPv6 address: one to four hexadecimal digits.
pub open spec fn hex_group(s: Seq<char>) -> Option<int> {
    if 1 <= s.len() <= 4 && all_digits(s, 16) {
        Some(number(s, 16))
    } else {
        None
    }
}

/// The four numbers of an IPv4 address: four parts with dots between them.
pub open spec fn ipv4(s: Seq<char>) -> Option<Seq<int>> {
    let parts = text::split(s, '.');
    if parts.len() == 4 && octet(parts[0]) is Some && octet(parts[1]) is Some && octet(parts[2]) is Some
        && octet(parts[3]) is Some {
        Some(seq![octet(parts[0])->0, octet(parts[1])->0, octet(parts[2])->0, octet(parts[3])->0])
    } else {
        None
    }
}

/// The groups that `parts` write, where each of them is a group.
pub open spec fn hex_groups(parts: Seq<Seq<char>>) -> Option<Seq<int>>
    decreases parts.len(),
{
    if parts.len() == 0 {
        Some(Seq::<int>::empty())
    } else {
        match (hex_groups(parts.drop_last()), hex_group(parts.last())) {
            (Some(before), Some(g)) => Some(before.push(g)),
            _ => None,
        }
    }
}

/// The groups that a run of parts writes. Where `mixed`, the last part may be
/// an IPv4 address, which stands for two groups.
pub open spec fn groups(parts: Seq<Seq<char>>, mixed: bool) -> Option<Seq<int>> {
    if parts.len() == 0 {
        Some(Seq::<int>::empty())
    } else {
        match (hex_groups(parts.drop_last()), hex_group(parts.last()), ipv4(parts.last())) {
            (Some(before), Some(g), _) => Some(before.push(g)),
            (Some(before), None, Some(o)) => if mixed {
                Some(before.push(o[0] * 256 + o[1]).push(o[2] * 256 + o[3]))
            } else {
                None
            },
            _ => None,
        }
    }
}

/// The groups of a text with colons between them; none for the empty text.
pub open spec fn text_groups(s: Seq<char>, mixed: bool) -> Option<Seq<int>> {
    if s.len() == 0 {
        Some(Seq::<int>::empty())
    } else {
        groups(text::split(s, ':'), mixed)
    }
}

/// The place of the first `::` in `s`.
pub open spec fn gap(s: Seq<char>) -> Option<int>
    decreases s.len(),
{
    if s.len() < 2 {
        None
    } else if s[0] == ':' && s[1] == ':' {
        Some(0int)
    } else {
        match gap(s.skip(1)) {
            Some(i) => Some(i + 1),
            None => None,
        }
    }
}

/// `n` groups of zero.
pub open spec fn zeros(n: int) -> Seq<int> {
    Seq::new(n as nat, |i: int| 0int)
}

/// The eight groups of an IPv6 address. A `::` stands for one or more groups
/// of zero; an IPv4 address may stand for the last two groups.
pub open spec fn ipv6(s: Seq<char>) -> Option<Seq<int>> {
    match gap(s) {
        Some(i) => match (text_groups(s.take(i), false), text_groups(s.skip(i + 2), true)) {
            (Some(h), Some(t)) => if h.len() + t.len() <= 7 {
                Some(h + zeros(8 - h.len() - t.len()) + t)
            } else {
                None
            },
            _ => None,
        },
        None => match groups(text::split(s, ':'), true) {
            Some(g) => if g.len() == 8 {
                Some(g)
            } else {
                None
            },
            None => None,
        },
    }
}

fn digit_of(c: char) -> (r: u32)
    ensures
        r == digit_value(c),
        r <= 16,
{
    let code: u32 = c as u32;
    if '0' <= c && c <= '9' {
        code - 48
    } else if 'a' <= c && c <= 'f' {
        code - 87
    } else if 'A' <= c && c <= 'F' {
        code - 55
    } else {
        16
    }
}

/// The number that up to four digits write, where they are digits.
fn short_number(cs: &Vec<char>, radix: u32) -> (r: Option<u32>)
    requires
        cs@.len() <= 4,
        2 <= radix <= 16,
    ensures
        match r {
            Some(n) => all_digits(cs@, radix as int) && n == number(cs@, radix as int),
            None => !all_digits(cs@, radix as int),
        },
        r matches Some(n) ==> n < 65536,
{
    let mut n: u32 = 0;
    let mut bound: u32 = 1;
    for i in 0..cs.len()
        invariant
            cs@.len() <= 4,
            2 <= radix <= 16,
            n == number(cs@.take(i as int), radix as int),
            forall|k: int| 0 <= k < i ==> digit_value(#[trigger] cs@[k]) < radix,
            n < bound,
            i == 0 ==> bound == 1,
            i == 1 ==> bound == 16,
            i == 2 ==> bound == 256,
            i == 3 ==> bound == 4096,
            i == 4 ==> bound == 65536,
    {
        let d: u32 = digit_of(cs[i]);
        if d >= radix {
            return None;
        }
        proof {
            assert(cs@.take(i + 1).drop_last() =~= cs@.take(i as int));
            assert(cs@.take(i + 1).last() == cs@[i as int]);
            assert(n * radix + d < bound * 16) by (nonlinear_arith)
                requires
                    n < bound,
                    d < radix,
                    radix <= 16,
            ;
        }
        n = n * radix + d;
        bound = bound * 16;
    }
    proof {
        assert(cs@.take(cs@.len() as int) =~= cs@);
    }
    Some(n)
}

/// Reads one part of an IPv4 address.
pub fn parse_octet(s: &str) -> (r: Option<u8>)
    ensures
        match r {
            Some(n) => octet(s@) == Some(n as int),
            None => octet(s@) is None,
        },
{
    let cs = text::chars_of(s);
    if cs.len() < 1 || cs.len() > 3 {
        return None;
    }
    if cs.len() > 1 && cs[0] == '0' {
        return None;
    }
    match short_number(&cs, 10) {
        Some(n) => if n <= 255 {
            Some(n as u8)
        } else {
            None
        },
        None => None,
    }
}

/// Reads one group of an IPv6 address.
pub fn parse_hex_group(s: &str) -> (r: Option<u16>)
    ensures
        match r {
            Some(n) => hex_group(s@) == Some(n as int),
            None => hex_group(s@) is None,
        },
{
    let cs = text::chars_of(s);
    if cs.len() < 1 || cs.len() > 4 {
        return None;
    }
    match short_number(&cs, 16) {
        Some(n) => Some(n as u16),
        None => None,
    }
}

/// The numbers of an IPv4 address.
pub open spec fn octets_view(o: [u8; 4]) -> Seq<int> {
    seq![o@[0] as int, o@[1] as int, o@[2] as int, o@[3] as int]
}

/// Reads an IPv4 address.
pub fn parse_ipv4(s: &str) -> (r: Option<[u8; 4]>)
    ensures
        match r {
            Some(o) => ipv4(s@) == Some(octets_view(o)),
            None => ipv4(s@) is None,
        },
{
    let parts = text::split_char(s, '.');
    let ghost all = text::split(s@, '.');
    if parts.len() != 4 {
        return None;
    }
    proof {
        assert(all[0] == parts@[0]@ && all[1] == parts@[1]@ && all[2] == parts@[2]@ && all[3]
            == parts@[3]@);
    }
    match (
        parse_octet(parts[0].as_str()),
        parse_octet(parts[1].as_str()),
        parse_octet(parts[2].as_str()),
        parse_octet(parts[3].as_str()),
    ) {
        (Some(a), Some(b), Some(c), Some(d)) => {
            let o: [u8; 4] = [a, b, c, d];
            Some(o)
        },
        _ => None,
    }
}

/// The numbers of a list of groups.
pub open spec fn groups_view(g: Seq<u16>) -> Seq<int> {
    g.map_values(|x: u16| x as int)
}

fn parse_hex_groups(parts: &Vec<String>, n: usize) -> (r: Option<Vec<u16>>)
    requires
        n <= parts@.len(),
    ensures
        match r {
            Some(g) => hex_groups(text::views(parts@).take(n as int)) == Some(groups_view(g@)),
            None => hex_groups(text::views(parts@).take(n as int)) is None,
        },
        r matches Some(g) ==> g@.len() == n,
    decreases n,
{
    let ghost all = text::views(parts@);
    if n == 0 {
        let none: Vec<u16> = Vec::new();
        proof {
            assert(groups_view(none@) =~= Seq::<int>::empty());
        }
        return Some(none);
    }
    proof {
        assert(all.take(n as int).drop_last() =~= all.take(n - 1));
        assert(all.take(n as int).last() == parts@[n - 1]@);
    }
    match (parse_hex_groups(parts, n - 1), parse_hex_group(parts[n - 1].as_str())) {
        (Some(mut before), Some(g)) => {
            let ghost held = before@;
            before.push(g);
            proof {
                assert(groups_view(before@) =~= groups_view(held).push(g as int));
            }
            Some(before)
        },
        _ => None,
    }
}

fn parse_groups(parts: &Vec<String>, mixed: bool) -> (r: Option<Vec<u16>>)
    ensures
        match r {
            Some(g) => groups(text::views(parts@), mixed) == Some(groups_view(g@)),
            None => groups(text::views(parts@), mixed) is None,
        },
{
    let ghost all = text::views(parts@);
    let n: usize = parts.len();
    if n == 0 {
        let none: Vec<u16> = Vec::new();
        proof {
            assert(groups_view(none@) =~= Seq::<int>::empty());
        }
        return Some(none);
    }
    proof {
        assert(all.take(n - 1) =~= all.drop_last());
        assert(all.last() == parts@[n - 1]@);
    }
    let mut before = match parse_hex_groups(parts, n - 1) {
        Some(before) => before,
        None => {
            return None;
        },
    };
    let ghost held = before@;
    match parse_hex_group(parts[n - 1].as_str()) {
        Some(g) => {
            before.push(g);
            proof {
                assert(groups_view(before@) =~= groups_view(held).push(g as int));
            }
            Some(before)
        },
        None => match parse_ipv4(parts[n - 1].as_str()) {
            Some(o) => if mixed {
                let high: u16 = o[0] as u16 * 256 + o[1] as u16;
                let low: u16 = o[2] as u16 * 256 + o[3] as u16;
                before.push(high);
                before.push(low);
                proof {
                    assert(groups_view(before@) =~= groups_view(held).push(high as int).push(
                        low as int,
                    ));
                }
                Some(before)
            } else {
                None
            },
            None => None,
        },
    }
}

fn parse_text_groups(s: &str, mixed: bool) -> (r: Option<Vec<u16>>)
    ensures
        match r {
            Some(g) => text_groups(s@, mixed) == Some(groups_view(g@)),
            None => text_groups(s@, mixed) is None,
        },
{
    if s.unicode_len() == 0 {
        let none: Vec<u16> = Vec::new();
        proof {
            assert(groups_view(none@) =~= Seq::<int>::empty());
        }
        return Some(none);
    }
    parse_groups(&text::split_char(s, ':'), mixed)
}

fn find_gap(cs: &Vec<char>) -> (r: Option<usize>)
    ensures
        match r {
            Some(i) => gap(cs@) == Some(i as int) && i + 2 <= cs@.len(),
            None => gap(cs@) is None,
        },
{
    let n: usize = cs.len();
    let mut i: usize = 0;
    proof {
        assert(cs@.skip(0) =~= cs@);
    }
    while i < n && n - i >= 2
        invariant
            n == cs@.len(),
            i <= n,
            match gap(cs@.skip(i as int)) {
                Some(k) => gap(cs@) == Some(k + i),
                None => gap(cs@) is None,
            },
        decreases n - i,
    {
        proof {
            assert(cs@.skip(i as int)[0] == cs@[i as int]);
            assert(cs@.skip(i as int)[1] == cs@[i + 1]);
            assert(cs@.skip(i as int).skip(1) =~= cs@.skip(i + 1));
        }
        if cs[i] == ':' && cs[i + 1] == ':' {
            return Some(i);
        }
        i = i + 1;
    }
    None
}

fn eight(g: &Vec<u16>) -> (r: [u16; 8])
    requires
        g@.len() == 8,
    ensures
        groups_view(r@) == groups_view(g@),
{
    let r: [u16; 8] = [g[0], g[1], g[2], g[3], g[4], g[5], g[6], g[7]];
    proof {
        assert(r@ =~= g@);
    }
    r
}

/// Reads an IPv6 address.
pub fn parse_ipv6(s: &str) -> (r: Option<[u16; 8]>)
    ensures
        match r {
            Some(g) => ipv6(s@) == Some(groups_view(g@)),
            None => ipv6(s@) is None,
        },
{
    let cs = text::chars_of(s);
    let n: usize = cs.len();
    match find_gap(&cs) {
        Some(i) => {
            let front = text::slice(s, 0, i);
            let back = text::slice(s, i + 2, n);
            proof {
                assert(front@ =~= s@.take(i as int));
                assert(back@ =~= s@.skip(i + 2));
            }
            let h = parse_text_groups(front, false);
            let t = parse_text_groups(back, true);
            match (h, t) {
                (Some(h), Some(t)) => {
                    if h.len() > 7 || t.len() > 7 - h.len() {
                        return None;
                    }
                    let mut all: Vec<u16> = Vec::new();
                    for k in 0..h.len()
                        invariant
                            all@ == h@.take(k as int),
                    {
                        all.push(h[k]);
                        proof {
                            assert(h@.take(k + 1) =~= h@.take(k as int).push(h@[k as int]));
                        }
                    }
                    let gap_len: usize = 8 - h.len() - t.len();
                    proof {
                        assert(h@.take(h@.len() as int) =~= h@);
                        assert(groups_view(all@) =~= groups_view(h@) + zeros(0));
                    }
                    for k in 0..gap_len
                        invariant
                            groups_view(all@) == groups_view(h@) + zeros(k as int),
                    {
                        let ghost held = all@;
                        all.push(0);
                        proof {
                            assert(groups_view(all@) =~= groups_view(held).push(0));
                            assert(zeros(k + 1) =~= zeros(k as int).push(0));
                            assert(groups_view(all@) =~= groups_view(h@) + zeros(k + 1));
                        }
                    }
                    let ghost front_part = groups_view(h@) + zeros(gap_len as int);
                    proof {
                        assert(groups_view(all@) =~= front_part + groups_view(t@.take(0)));
                    }
                    for k in 0..t.len()
                        invariant
                            groups_view(all@) == front_part + groups_view(t@.take(k as int)),
                    {
                        let ghost held = all@;
                        all.push(t[k]);
                        proof {
                            assert(t@.take(k + 1) =~= t@.take(k as int).push(t@[k as int]));
                            assert(groups_view(all@) =~= groups_view(held).push(t@[k as int] as int));
                            assert(groups_view(t@.take(k + 1)) =~= groups_view(
                                t@.take(k as int),
                            ).push(t@[k as int] as int));
                            assert(groups_view(all@) =~= front_part + groups_view(t@.take(k + 1)));
                        }
                    }
                    proof {
                        assert(t@.take(t@.len() as int) =~= t@);
                        assert(groups_view(all@).len() == 8);
                    }
                    Some(eight(&all))
                },
                _ => None,
            }
        },
        None => match parse_groups(&text::split_char(s, ':'), true) {
            Some(g) => {
                proof {
                    assert(groups_view(g@).len() == g@.len());
                }
                if g.len() == 8 {
                    Some(eight(&g))
                } else {
                    None
                }
            },
            None => None,
        },
    }
}

// ---------------------------------------------------------------------------
// Which addresses are public
// ---------------------------------------------------------------------------

/// The IPv4 address is not globally routable.
pub open spec fn non_global_v4(o: Seq<int>) -> bool {
    let a = o[0];
    let b = o[1];
    let c = o[2];
    let d = o[3];
    ||| a == 127  // loopback
    ||| a == 10 || (a == 172 && 16 <= b <= 31) || (a == 192 && b == 168)  // private
    ||| a == 169 && b == 254  // link-local
    ||| a == 0 && b == 0 && c == 0 && d == 0  // unspecified
    ||| a == 255 && b == 255 && c == 255 && d == 255  // broadcast
    ||| 224 <= a <= 239  // multicast
    ||| a == 100 && 64 <= b <= 127  // shared address space (RFC 6598)
    ||| a >= 240  // reserved
    ||| a == 192 && b == 0 && (c == 0 || c == 2)  // IETF assignments and TEST-NET-1
    ||| a == 198 && b == 51 && c == 100  // documentation (198.51.100.0/24)
    ||| a == 203 && b == 0 && c == 113  // documentation (203.0.113.0/24)
    ||| a == 198 && 18 <= b <= 19  // benchmarking
}

/// The IPv4 address that an IPv6 address carries in its last two groups.
pub open spec fn mapped_v4(g: Seq<int>) -> Option<Seq<int>> {
    if g[0] == 0 && g[1] == 0 && g[2] == 0 && g[3] == 0 && g[4] == 0 && g[5] == 0xffff {
        Some(seq![g[6] / 256, g[6] % 256, g[7] / 256, g[7] % 256])
    } else {
        None
    }
}

/// The IPv6 address is not globally routable.
pub open spec fn non_global_v6(g: Seq<int>) -> bool {
    let zero_front = g[0] == 0 && g[1] == 0 && g[2] == 0 && g[3] == 0 && g[4] == 0 && g[5] == 0
        && g[6] == 0;
    ||| zero_front && g[7] == 1  // loopback
    ||| zero_front && g[7] == 0  // unspecified
    ||| 0xff00 <= g[0]  // multicast
    ||| 0xfc00 <= g[0] <= 0xfdff  // unique-local
    ||| 0xfe80 <= g[0] <= 0xfebf  // link-local
    ||| g[0] == 0x2001 && g[1] == 0x0db8  // documentation
    ||| match mapped_v4(g) {
        Some(o) => non_global_v4(o),
        None => false,
    }
}

/// Returns true if the IPv4 address is not globally routable.
pub fn is_non_global_v4(v4: [u8; 4]) -> (r: bool)
    ensures
        r == non_global_v4(octets_view(v4)),
{
    let a: u8 = v4[0];
    let b: u8 = v4[1];
    let c: u8 = v4[2];
    let d: u8 = v4[3];
    a == 127 || (a == 10 || (a == 172 && 16 <= b && b <= 31) || (a == 192 && b == 168)) || (a == 169
        && b == 254) || (a == 0 && b == 0 && c == 0 && d == 0) || (a == 255 && b == 255 && c == 255
        && d == 255) || (224 <= a && a <= 239) || (a == 100 && 64 <= b && b <= 127) || a >= 240 || (a
        == 192 && b == 0 && (c == 0 || c == 2)) || (a == 198 && b == 51 && c == 100) || (a == 203
        && b == 0 && c == 113) || (a == 198 && 18 <= b && b <= 19)
}

/// Returns true if the IPv6 address is not globally routable.
pub fn is_non_global_v6(v6: [u16; 8]) -> (r: bool)
    ensures
        r == non_global_v6(groups_view(v6@)),
{
    let ghost g = groups_view(v6@);
    let zero_front = v6[0] == 0 && v6[1] == 0 && v6[2] == 0 && v6[3] == 0 && v6[4] == 0 && v6[5] == 0
        && v6[6] == 0;
    proof {
        assert(g[0] == v6@[0] as int && g[1] == v6@[1] as int && g[2] == v6@[2] as int && g[3]
            == v6@[3] as int && g[4] == v6@[4] as int && g[5] == v6@[5] as int && g[6]
            == v6@[6] as int && g[7] == v6@[7] as int);
    }
    if zero_front && (v6[7] == 1 || v6[7] == 0) {
        return true;
    }
    if 0xff00 <= v6[0] || (0xfc00 <= v6[0] && v6[0] <= 0xfdff) || (0xfe80 <= v6[0] && v6[0]
        <= 0xfebf) || (v6[0] == 0x2001 && v6[1] == 0x0db8) {
        return true;
    }
    if v6[0] == 0 && v6[1] == 0 && v6[2] == 0 && v6[3] == 0 && v6[4] == 0 && v6[5] == 0xffff {
        let o: [u8; 4] = [
            (v6[6] / 256) as u8,
            (v6[6] % 256) as u8,
            (v6[7] / 256) as u8,
            (v6[7] % 256) as u8,
        ];
        proof {
            assert(octets_view(o) =~= mapped_v4(g)->0);
        }
        return is_non_global_v4(o);
    }
    false
}

/// The host without the brackets of an IPv6 address.
pub open spec fn bare_host(host: Seq<char>) -> Seq<char> {
    if host.len() >= 2 && host[0] == '[' && host.last() == ']' {
        host.subrange(1, host.len() - 1)
    } else {
        host
    }
}

/// The host is this machine, a name that only resolves locally, or an address
/// that is not globally routable.
pub open spec fn private_or_local(host: Seq<char>) -> bool {
    let bare = bare_host(host);
    ||| bare == "localhost"@
    ||| text::has_suffix(bare, ".localhost"@)
    ||| text::split(bare, '.').last() == "local"@
    ||| match ipv4(bare) {
        Some(o) => non_global_v4(o),
        None => match ipv6(bare) {
            Some(g) => non_global_v6(g),
            None => false,
        },
    }
}

/// Whether the host is local or private.
pub fn is_private_or_local_host(host: &str) -> (r: bool)
    ensures
        r == private_or_local(host@),
{
    let cs = text::chars_of(host);
    let n: usize = cs.len();
    let bare = if n >= 2 && cs[0] == '[' && cs[n - 1] == ']' {
        text::slice(host, 1, n - 1)
    } else {
        host
    };
    let labels = text::split_char(bare, '.');
    proof {
        text::lemma_split_len(bare@, '.');
        assert(text::views(labels@).last() == labels@.last()@);
    }
    let last = &labels[labels.len() - 1];
    if text::same_text(bare, "localhost") || text::ends_with(bare, ".localhost") || text::same_text(
        last.as_str(),
        "local",
    ) {
        return true;
    }
    match parse_ipv4(bare) {
        Some(o) => is_non_global_v4(o),
        None => match parse_ipv6(bare) {
            Some(g) => is_non_global_v6(g),
            None => false,
        },
    }
}

/// An IPv4 address written as an IPv6 address is blocked wherever the IPv4
/// address itself is.
pub proof fn law_mapped_address_is_as_private(o: Seq<int>, g: Seq<int>)
    requires
        o.len() == 4,
        g.len() == 8,
        forall|i: int| 0 <= i < 4 ==> 0 <= #[trigger] o[i] <= 255,
        g == seq![0, 0, 0, 0, 0, 0xffff, o[0] * 256 + o[1], o[2] * 256 + o[3]],
    ensures
        non_global_v6(g) == non_global_v4(o),
{
    assert(0 <= o[0] <= 255 && 0 <= o[1] <= 255 && 0 <= o[2] <= 255 && 0 <= o[3] <= 255);
    assert(mapped_v4(g)->0 =~= o);
}

/// The 32 bits of an IPv4 address as one number.
pub open spec fn address_of(a: int, b: int, c: int, d: int) -> int {
    ((a * 256 + b) * 256 + c) * 256 + d
}

/// An IPv4 address is not globally routable exactly where it lies in one of the
/// blocks that are set aside, each from its first address to its last.
pub proof fn law_blocks_that_are_not_global(a: int, b: int, c: int, d: int)
    requires
        0 <= a <= 255,
        0 <= b <= 255,
        0 <= c <= 255,
        0 <= d <= 255,
    ensures
        non_global_v4(seq![a, b, c, d]) <==> {
            let n = address_of(a, b, c, d);
            ||| n == 0
            ||| address_of(10, 0, 0, 0) <= n <= address_of(10, 255, 255, 255)
            ||| address_of(100, 64, 0, 0) <= n <= address_of(100, 127, 255, 255)
            ||| address_of(127, 0, 0, 0) <= n <= address_of(127, 255, 255, 255)
            ||| address_of(169, 254, 0, 0) <= n <= address_of(169, 254, 255, 255)
            ||| address_of(172, 16, 0, 0) <= n <= address_of(172, 31, 255, 255)
            ||| address_of(192, 0, 0, 0) <= n <= address_of(192, 0, 0, 255)
            ||| address_of(192, 0, 2, 0) <= n <= address_of(192, 0, 2, 255)
            ||| address_of(192, 168, 0, 0) <= n <= address_of(192, 168, 255, 255)
            ||| address_of(198, 18, 0, 0) <= n <= address_of(198, 19, 255, 255)
            ||| address_of(198, 51, 100, 0) <= n <= address_of(198, 51, 100, 255)
            ||| address_of(203, 0, 113, 0) <= n <= address_of(203, 0, 113, 255)
            ||| address_of(224, 0, 0, 0) <= n
        },
{
}

/// An IPv6 address is not globally routable exactly where it is the unspecified
/// address or the loopback, begins with one of the prefixes that are set aside,
/// or carries such an IPv4 address.
pub proof fn law_prefixes_that_are_not_global(g: Seq<int>)
    requires
        g.len() == 8,
        forall|i: int| 0 <= i < 8 ==> 0 <= #[trigger] g[i] <= 0xffff,
    ensures
        non_global_v6(g) <==> {
            ||| g =~= seq![0, 0, 0, 0, 0, 0, 0, 0]
            ||| g =~= seq![0, 0, 0, 0, 0, 0, 0, 1]
            ||| g[0] / 0x100 == 0xff
            ||| g[0] / 0x200 == 0x7e
            ||| g[0] / 0x40 == 0x3fa
            ||| g[0] == 0x2001 && g[1] == 0xdb8
            ||| g.take(6) =~= seq![0, 0, 0, 0, 0, 0xffff] && non_global_v4(
                seq![g[6] / 256, g[6] % 256, g[7] / 256, g[7] % 256],
            )
        },
{
    assert(0 <= g[0] <= 0xffff);
    assert(g.take(6)[0] == g[0] && g.take(6)[1] == g[1] && g.take(6)[2] == g[2] && g.take(6)[3]
        == g[3] && g.take(6)[4] == g[4] && g.take(6)[5] == g[5]);
    if mapped_v4(g) is Some {
        assert(g.take(6) =~= seq![0, 0, 0, 0, 0, 0xffff]);
    }
    if g =~= seq![0, 0, 0, 0, 0, 0, 0, 0] || g =~= seq![0, 0, 0, 0, 0, 0, 0, 1] {
        assert(g[0] == 0 && g[1] == 0 && g[2] == 0 && g[3] == 0 && g[4] == 0 && g[5] == 0 && g[6]
            == 0);
    }
    let zero_front = g[0] == 0 && g[1] == 0 && g[2] == 0 && g[3] == 0 && g[4] == 0 && g[5] == 0
        && g[6] == 0;
    if zero_front && g[7] == 1 {
        assert(g =~= seq![0, 0, 0, 0, 0, 0, 0, 1]);
    }
    if zero_front && g[7] == 0 {
        assert(g =~= seq![0, 0, 0, 0, 0, 0, 0, 0]);
    }
}

/// A decimal number up to 255 is read as that number.
proof fn lemma_octet_of(n: nat)
    requires
        n <= 255,
    ensures
        octet(text::decimal(n)) == Some(n as int),
        !text::decimal(n).contains('.'),
        text::decimal(n)[0] != '[',
        text::decimal(n).len() > 0,
        text::decimal(n).last() != 'l',
{
    let s = text::decimal(n);
    text::law_decimal_notation_is_exact(n);
    assert forall|i: int| 0 <= i < s.len() implies digit_value(#[trigger] s[i]) < 10 by {}
    lemma_numbers_agree(s);
    if s.len() > 1 && s[0] == '0' {
        assert(n == 0);
    }
}

proof fn lemma_numbers_agree(s: Seq<char>)
    requires
        forall|i: int| 0 <= i < s.len() ==> '0' <= #[trigger] s[i] <= '9',
    ensures
        number(s, 10) == text::number_of(s),
    decreases s.len(),
{
    if s.len() > 0 {
        let rest = s.drop_last();
        assert forall|i: int| 0 <= i < rest.len() implies '0' <= #[trigger] rest[i] <= '9' by {
            assert('0' <= s[i] <= '9');
        }
        lemma_numbers_agree(rest);
        assert('0' <= s[s.len() - 1] <= '9');
    }
}

/// An IPv4 address as it is written.
pub open spec fn dotted(a: nat, b: nat, c: nat, d: nat) -> Seq<char> {
    text::decimal(a) + seq!['.'] + text::decimal(b) + seq!['.'] + text::decimal(c) + seq!['.']
        + text::decimal(d)
}

/// An IPv4 address in text form is read as its four numbers, and a host that is
/// one is private or local exactly where that address is not globally routable.
pub proof fn law_dotted_addresses_are_read(a: nat, b: nat, c: nat, d: nat)
    requires
        a <= 255,
        b <= 255,
        c <= 255,
        d <= 255,
    ensures
        ipv4(dotted(a, b, c, d)) == Some(seq![a as int, b as int, c as int, d as int]),
        private_or_local(dotted(a, b, c, d)) == non_global_v4(
            seq![a as int, b as int, c as int, d as int],
        ),
{
    let s = dotted(a, b, c, d);
    let (x, y, z, w) = (text::decimal(a), text::decimal(b), text::decimal(c), text::decimal(d));
    lemma_octet_of(a);
    lemma_octet_of(b);
    lemma_octet_of(c);
    lemma_octet_of(d);
    let zw = z + seq!['.'] + w;
    let yzw = y + seq!['.'] + zw;
    assert(s =~= x + seq!['.'] + yzw);
    text::law_pieces_of_two_texts(x, yzw, '.');
    text::law_pieces_of_two_texts(y, zw, '.');
    text::law_pieces_of_two_texts(z, w, '.');
    text::law_text_without_a_break_is_one_piece(x, '.');
    text::law_text_without_a_break_is_one_piece(y, '.');
    text::law_text_without_a_break_is_one_piece(z, '.');
    text::law_text_without_a_break_is_one_piece(w, '.');
    assert(text::split(s, '.') =~= seq![x, y, z, w]);
    assert(ipv4(s)->0 =~= seq![a as int, b as int, c as int, d as int]);
    assert(s[0] == x[0]);
    assert(bare_host(s) == s);
    reveal_strlit("localhost");
    reveal_strlit(".localhost");
    reveal_strlit("local");
    assert(s.last() == w.last());
    text::law_decimal_notation_is_exact(d);
    assert('0' <= w[w.len() - 1] <= '9');
    assert("localhost"@.last() == 't');
    assert(".localhost"@.last() == 't');
    assert("local"@.last() == 'l');
    if text::has_suffix(s, ".localhost"@) {
        assert(s.skip(s.len() - 10).last() == s.last());
    }
}

/// The name of this machine is local, and so is every name below it, and every
/// name that ends with the label `local`.
pub proof fn law_local_names_are_local(x: Seq<char>)
    requires
        x.len() > 0 ==> x[0] != '[',
    ensures
        private_or_local("localhost"@),
        private_or_local(x + ".localhost"@),
        private_or_local(x + ".local"@),
{
    reveal_strlit("localhost");
    reveal_strlit(".localhost");
    reveal_strlit(".local");
    reveal_strlit("local");
    assert("localhost"@[0] == 'l');
    text::lemma_suffix(x, ".localhost"@);
    let named = x + ".localhost"@;
    assert(named[0] == if x.len() > 0 {
        x[0]
    } else {
        '.'
    });
    let below = x + ".local"@;
    assert(below[0] == if x.len() > 0 {
        x[0]
    } else {
        '.'
    });
    assert(below =~= x + seq!['.'] + "local"@);
    text::law_pieces_of_two_texts(x, "local"@, '.');
    text::law_text_without_a_break_is_one_piece("local"@, '.');
    assert(text::split(below, '.').last() == "local"@);
}

// ---------------------------------------------------------------------------
// Laws of IPv6 addresses in text form
// ---------------------------------------------------------------------------

/// The hexadecimal notation of a number.
pub open spec fn hex_notation(n: nat) -> Seq<char>
    decreases n,
{
    let digits = "0123456789abcdef"@;
    if n < 16 {
        seq![digits[n as int]]
    } else {
        hex_notation(n / 16).push(digits[(n % 16) as int])
    }
}

proof fn lemma_hex_digit(d: int)
    requires
        0 <= d < 16,
    ensures
        digit_value("0123456789abcdef"@[d]) == d,
        "0123456789abcdef"@[d] != ':',
{
    reveal_strlit("0123456789abcdef");
    let s = "0123456789abcdef"@;
    assert(s[0] == '0' && s[1] == '1' && s[2] == '2' && s[3] == '3' && s[4] == '4' && s[5] == '5'
        && s[6] == '6' && s[7] == '7' && s[8] == '8' && s[9] == '9' && s[10] == 'a' && s[11] == 'b'
        && s[12] == 'c' && s[13] == 'd' && s[14] == 'e' && s[15] == 'f');
}

proof fn lemma_hex_notation(n: nat)
    requires
        n <= 0xffff,
    ensures
        number(hex_notation(n), 16) == n,
        all_digits(hex_notation(n), 16),
        1 <= hex_notation(n).len() <= 4,
        n < 0x1000 ==> hex_notation(n).len() <= 3,
        n < 0x100 ==> hex_notation(n).len() <= 2,
        n < 0x10 ==> hex_notation(n).len() == 1,
    decreases n,
{
    let s = hex_notation(n);
    lemma_hex_digit((n % 16) as int);
    if n < 16 {
        assert(s.drop_last() =~= Seq::<char>::empty());
        assert(number(s.drop_last(), 16) == 0);
    } else {
        lemma_hex_notation(n / 16);
        assert(s.drop_last() =~= hex_notation(n / 16));
    }
}

/// Every group is read from its hexadecimal notation, in either case of the
/// letters; no longer text is a group, no empty one, and none with any other
/// character.
pub proof fn law_hexadecimal_groups_are_read(n: nat, c: char, s: Seq<char>, i: int)
    ensures
        n <= 0xffff ==> hex_group(hex_notation(n)) == Some(n as int),
        'A' <= c <= 'F' ==> digit_value(c) == c as int - 'A' as int + 10,
        'a' <= c <= 'f' ==> digit_value(c) == c as int - 'a' as int + 10,
        '0' <= c <= '9' ==> digit_value(c) == c as int - '0' as int,
        s.len() == 0 || s.len() > 4 ==> hex_group(s) is None,
        0 <= i < s.len() && !('0' <= s[i] <= '9' || 'a' <= s[i] <= 'f' || 'A' <= s[i] <= 'F')
            ==> hex_group(s) is None,
{
    if n <= 0xffff {
        lemma_hex_notation(n);
    }
    if 0 <= i < s.len() && !('0' <= s[i] <= '9' || 'a' <= s[i] <= 'f' || 'A' <= s[i] <= 'F') {
        assert(digit_value(s[i]) == 16);
    }
}

/// Every part is a group.
pub open spec fn are_groups(parts: Seq<Seq<char>>) -> bool {
    forall|k: int| 0 <= k < parts.len() ==> hex_group(#[trigger] parts[k]) is Some
}

/// The groups that parts write.
pub open spec fn group_values(parts: Seq<Seq<char>>) -> Seq<int> {
    parts.map_values(|p: Seq<char>| hex_group(p)->0)
}

/// No two colons stand side by side, and none stands at either end.
spec fn is_even(s: Seq<char>) -> bool {
    &&& s.len() > 0
    &&& s[0] != ':'
    &&& s.last() != ':'
    &&& forall|i: int| 0 <= i < s.len() - 1 ==> !(#[trigger] s[i] == ':' && s[i + 1] == ':')
}

proof fn lemma_group_has_no_colon(p: Seq<char>)
    requires
        hex_group(p) is Some,
    ensures
        p.len() > 0,
        !p.contains(':'),
{
    if p.contains(':') {
        let i = choose|i: int| 0 <= i < p.len() && p[i] == ':';
        assert(digit_value(p[i]) == 16);
    }
}

proof fn lemma_joined_groups(parts: Seq<Seq<char>>)
    requires
        parts.len() > 0,
        are_groups(parts),
    ensures
        text::split(text::join(parts, ":"@), ':') == parts,
        is_even(text::join(parts, ":"@)),
        hex_groups(parts) == Some(group_values(parts)),
        groups(parts, true) == Some(group_values(parts)),
        groups(parts, false) == Some(group_values(parts)),
    decreases parts.len(),
{
    reveal_strlit(":");
    let last = parts.last();
    let rest = parts.drop_last();
    assert(hex_group(parts[parts.len() - 1]) is Some);
    lemma_group_has_no_colon(last);
    text::law_text_without_a_break_is_one_piece(last, ':');
    assert(group_values(parts) =~= group_values(rest).push(hex_group(last)->0));
    assert forall|i: int| 0 <= i < last.len() implies #[trigger] last[i] != ':' by {
        if last[i] == ':' {
            assert(last.contains(':'));
        }
    }
    if rest.len() == 0 {
        assert(parts =~= seq![last]);
        assert(text::join(parts, ":"@) == last);
        assert(hex_groups(rest) == Some(Seq::<int>::empty()));
        assert(group_values(rest) =~= Seq::<int>::empty());
    } else {
        assert(are_groups(rest)) by {
            assert forall|k: int| 0 <= k < rest.len() implies hex_group(#[trigger] rest[k]) is Some by {
                assert(hex_group(parts[k]) is Some);
            }
        }
        lemma_joined_groups(rest);
        let front = text::join(rest, ":"@);
        assert(":"@ =~= seq![':']);
        let all = front + seq![':'] + last;
        assert(text::join(parts, ":"@) =~= all);
        text::law_pieces_of_two_texts(front, last, ':');
        assert(rest + seq![last] =~= parts);
        assert(all[0] == front[0]);
        assert(all.last() == last.last());
        let n = front.len() as int;
        assert forall|i: int| 0 <= i < all.len() - 1 implies !(#[trigger] all[i] == ':' && all[i + 1]
            == ':') by {
            if i < n - 1 {
                assert(all[i] == front[i] && all[i + 1] == front[i + 1]);
            } else if i == n - 1 {
                assert(all[i] == front.last());
            } else {
                assert(all[i + 1] == last[i - n]);
            }
        }
    }
}

proof fn lemma_gap(s: Seq<char>)
    ensures
        match gap(s) {
            Some(i) => 0 <= i < s.len() - 1 && s[i] == ':' && s[i + 1] == ':' && forall|j: int|
                0 <= j < i ==> !(#[trigger] s[j] == ':' && s[j + 1] == ':'),
            None => forall|j: int|
                0 <= j < s.len() - 1 ==> !(#[trigger] s[j] == ':' && s[j + 1] == ':'),
        },
    decreases s.len(),
{
    if s.len() >= 2 && !(s[0] == ':' && s[1] == ':') {
        let t = s.skip(1);
        lemma_gap(t);
        match gap(t) {
            Some(i) => {
                assert(s[i + 1] == t[i] && s[i + 2] == t[i + 1]);
                assert forall|j: int| 0 <= j < i + 1 implies !(#[trigger] s[j] == ':' && s[j + 1]
                    == ':') by {
                    if j > 0 {
                        assert(s[j] == t[j - 1] && s[j + 1] == t[j]);
                    }
                }
            },
            None => {
                assert forall|j: int| 0 <= j < s.len() - 1 implies !(#[trigger] s[j] == ':' && s[j
                    + 1] == ':') by {
                    if j > 0 {
                        assert(s[j] == t[j - 1] && s[j + 1] == t[j]);
                    }
                }
            },
        }
    }
}

/// An address that is written out has eight groups with colons between them, and
/// they are its groups; any other number of them is no address.
pub proof fn law_written_out_addresses_are_read(parts: Seq<Seq<char>>)
    requires
        parts.len() > 0,
        are_groups(parts),
    ensures
        parts.len() == 8 ==> ipv6(text::join(parts, ":"@)) == Some(group_values(parts)),
        parts.len() != 8 ==> ipv6(text::join(parts, ":"@)) is None,
{
    lemma_joined_groups(parts);
    lemma_gap(text::join(parts, ":"@));
}

/// Two colons stand for as many groups of zero as are missing, at least for one:
/// what is written before them comes first, and what is written behind them last.
pub proof fn law_two_colons_stand_for_zeros(head: Seq<Seq<char>>, tail: Seq<Seq<char>>)
    requires
        are_groups(head),
        are_groups(tail),
    ensures
        ({
            let s = text::join(head, ":"@) + "::"@ + text::join(tail, ":"@);
            &&& head.len() + tail.len() > 7 ==> ipv6(s) is None
            &&& head.len() + tail.len() <= 7 ==> {
                &&& ipv6(s) is Some
                &&& ipv6(s)->0.len() == 8
                &&& ipv6(s)->0.take(head.len() as int) == group_values(head)
                &&& ipv6(s)->0.skip(8 - tail.len()) == group_values(tail)
                &&& forall|i: int|
                    head.len() <= i < 8 - tail.len() ==> #[trigger] (ipv6(s)->0)[i] == 0
            }
        }),
{
    reveal_strlit("::");
    let h = text::join(head, ":"@);
    let t = text::join(tail, ":"@);
    let s = h + "::"@ + t;
    if head.len() > 0 {
        lemma_joined_groups(head);
    } else {
        assert(h =~= Seq::<char>::empty());
        assert(group_values(head) =~= Seq::<int>::empty());
    }
    if tail.len() > 0 {
        lemma_joined_groups(tail);
    } else {
        assert(t =~= Seq::<char>::empty());
        assert(group_values(tail) =~= Seq::<int>::empty());
    }
    let n = h.len() as int;
    assert(s[n] == ':' && s[n + 1] == ':');
    lemma_gap(s);
    assert(gap(s) == Some(n)) by {
        match gap(s) {
            Some(i) => {
                if i < n - 1 {
                    assert(h[i] == s[i] && h[i + 1] == s[i + 1]);
                } else if i == n - 1 {
                    assert(h.last() == s[i]);
                }
            },
            None => {},
        }
    }
    assert(s.take(n) =~= h);
    assert(s.skip(n + 2) =~= t);
    if head.len() + tail.len() <= 7 {
        let all = group_values(head) + zeros(8 - head.len() - tail.len()) + group_values(tail);
        assert(ipv6(s) == Some(all));
        assert(all.take(head.len() as int) =~= group_values(head));
        assert(all.skip(8 - tail.len()) =~= group_values(tail));
    }
}

/// Behind other groups an IPv4 address may stand for the last two.
pub proof fn law_dotted_addresses_stand_for_two_groups(
    parts: Seq<Seq<char>>,
    a: nat,
    b: nat,
    c: nat,
    d: nat,
)
    requires
        are_groups(parts),
        a <= 255 && b <= 255 && c <= 255 && d <= 255,
    ensures
        groups(parts.push(dotted(a, b, c, d)), true) == Some(
            group_values(parts) + seq![a as int * 256 + b as int, c as int * 256 + d as int],
        ),
        groups(parts.push(dotted(a, b, c, d)), false) is None,
{
    let last = dotted(a, b, c, d);
    law_dotted_addresses_are_read(a, b, c, d);
    assert(parts.push(last).drop_last() =~= parts);
    if parts.len() > 0 {
        lemma_joined_groups(parts);
    } else {
        assert(group_values(parts) =~= Seq::<int>::empty());
    }
    let k = text::decimal(a).len() as int;
    assert(last[k] == '.');
    assert(digit_value(last[k]) == 16);
    assert(hex_group(last) is None);
    let x = a as int * 256 + b as int;
    let y = c as int * 256 + d as int;
    assert(group_values(parts).push(x).push(y) =~= group_values(parts) + seq![x, y]);
}

/// A host is local or private exactly where it is `localhost` or below it, where
/// its last label is `local`, and where it is an address that is not globally
/// routable; brackets around it do not matter.
pub proof fn law_which_hosts_are_local_or_private(host: Seq<char>)
    requires
        host.len() == 0 || host[0] != '[',
    ensures
        private_or_local(host) <==> {
            ||| host == "localhost"@
            ||| exists|x: Seq<char>| host == #[trigger] (x + ".localhost"@)
            ||| text::split(host, '.').last() == "local"@
            ||| ipv4(host) is Some && non_global_v4(ipv4(host)->0)
            ||| ipv4(host) is None && ipv6(host) is Some && non_global_v6(ipv6(host)->0)
        },
        private_or_local(seq!['['] + host + seq![']']) == private_or_local(host),
{
    text::law_beginnings_and_ends(host, ".localhost"@);
    let bracketed = seq!['['] + host + seq![']'];
    assert(bracketed.last() == ']' && bracketed[0] == '[');
    assert(bracketed.subrange(1, bracketed.len() - 1) =~= host);
}

} // verus!
