//! Internet addresses and networks in text form.

use crate::text::{
    all_digits, digit, digits_value, find, find_of, is_digit, is_lower, parse_uint, part, read_uint,
    split, split_of, texts,
};
use vstd::prelude::*;

verus! {

/// An address: the 32 bits of an IPv4 address or the 128 bits of an IPv6 address.
#[derive(Debug, Clone, Copy, PartialEq, Eq, Structural)]
pub enum IpAddr {
    V4(u32),
    V6(u128),
}

/// The addresses that share the first `prefix` bits of `address`.
#[derive(Debug, Clone, Copy, PartialEq, Eq, Structural)]
pub struct Cidr {
    pub address: IpAddr,
    pub prefix: u8,
}

impl Cidr {
    /// The prefix is no longer than an address of the family.
    pub open spec fn wf(self) -> bool {
        match self.address {
            IpAddr::V4(_) => self.prefix <= 32,
            IpAddr::V6(_) => self.prefix <= 128,
        }
    }

    /// Same family, and the leading `prefix` bits do not differ.
    pub open spec fn covers(self, candidate: IpAddr) -> bool {
        match (self.address, candidate) {
            (IpAddr::V4(n), IpAddr::V4(v)) => self.prefix == 0 || (n ^ v) >> ((32
                - self.prefix) as u32) == 0,
            (IpAddr::V6(n), IpAddr::V6(v)) => self.prefix == 0 || (n ^ v) >> ((128
                - self.prefix) as u32) == 0,
            _ => false,
        }
    }

    /// Whether the candidate belongs to the network.
    pub fn contains(&self, candidate: IpAddr) -> (b: bool)
        requires
            self.wf(),
        ensures
            b == self.covers(candidate),
    {
        match (self.address, candidate) {
            (IpAddr::V4(network), IpAddr::V4(value)) => {
                if self.prefix == 0 {
                    return true;
                }
                let shift: u32 = 32 - self.prefix as u32;
                let mask: u32 = 0xffff_ffffu32 << shift;
                let ghost x = network ^ value;
                assert((network & mask == value & mask) == ((network ^ value) & mask == 0))
                    by (bit_vector);
                assert((x & mask == 0) == (x >> shift == 0)) by (bit_vector)
                    requires
                        shift < 32,
                        mask == 0xffff_ffffu32 << shift,
                ;
                (network & mask) == (value & mask)
            },
            (IpAddr::V6(network), IpAddr::V6(value)) => {
                if self.prefix == 0 {
                    return true;
                }
                let shift: u32 = 128 - self.prefix as u32;
                let mask: u128 = 0xffff_ffff_ffff_ffff_ffff_ffff_ffff_ffffu128 << shift;
                let ghost x = network ^ value;
                assert((network & mask == value & mask) == ((network ^ value) & mask == 0))
                    by (bit_vector);
                assert((x & mask == 0) == (x >> shift == 0)) by (bit_vector)
                    requires
                        shift < 128,
                        mask == 0xffff_ffff_ffff_ffff_ffff_ffff_ffff_ffffu128 << shift,
                ;
                (network & mask) == (value & mask)
            },
            _ => false,
        }
    }
}

/// Every address of a family lies in the family's network of prefix zero, and a
/// network of full length holds its own address alone.
pub proof fn law_network_extremes(a: u32, b: u32)
    ensures
        (Cidr { address: IpAddr::V4(a), prefix: 0 }).covers(IpAddr::V4(b)),
        (Cidr { address: IpAddr::V4(a), prefix: 32 }).covers(IpAddr::V4(b)) <==> a == b,
{
    assert(((a ^ b) >> 0u32 == 0) == (a == b)) by (bit_vector);
}

/// A shorter prefix of the same address covers at least as much.
pub proof fn law_shorter_prefix_covers_more(address: IpAddr, long: u8, short: u8, candidate: IpAddr)
    requires
        (Cidr { address, prefix: long }).wf(),
        short <= long,
        (Cidr { address, prefix: long }).covers(candidate),
    ensures
        (Cidr { address, prefix: short }).covers(candidate),
{
    if short > 0 {
        match (address, candidate) {
            (IpAddr::V4(n), IpAddr::V4(v)) => {
                let l = (32 - long) as u32;
                let s = (32 - short) as u32;
                let x = n ^ v;
                assert(x >> l == 0 ==> x >> s == 0) by (bit_vector)
                    requires
                        l <= s,
                        s < 32,
                ;
            },
            (IpAddr::V6(n), IpAddr::V6(v)) => {
                let l = (128 - long) as u32;
                let s = (128 - short) as u32;
                let x = n ^ v;
                assert(x >> l == 0 ==> x >> s == 0) by (bit_vector)
                    requires
                        l <= s,
                        s < 128,
                ;
            },
            _ => {},
        }
    }
}

pub open spec fn is_hex(c: char) -> bool {
    is_digit(c) || 65 <= c as u32 <= 70 || 97 <= c as u32 <= 102
}

/// The value of a hexadecimal digit.
pub open spec fn hex_value(c: char) -> u8 {
    if is_digit(c) {
        (c as u32 - 48) as u8
    } else if is_lower(c) {
        (c as u32 - 87) as u8
    } else {
        (c as u32 - 55) as u8
    }
}

pub open spec fn hex_bits(p: Seq<char>) -> u16
    decreases p.len(),
{
    if p.len() == 0 {
        0
    } else {
        (hex_bits(p.drop_last()) << 4) | hex_value(p.last()) as u16
    }
}

/// One group of an IPv6 address: one to four hexadecimal digits.
pub open spec fn hex_group(p: Seq<char>) -> Option<u16> {
    if 1 <= p.len() <= 4 && (forall|i: int| 0 <= i < p.len() ==> is_hex(#[trigger] p[i])) {
        Some(hex_bits(p))
    } else {
        None
    }
}

/// One part of a dotted address: no superfluous leading zero, at most 255.
pub open spec fn octet(p: Seq<char>) -> Option<u8> {
    if 1 <= p.len() <= 3 && all_digits(p) && (p.len() == 1 || p[0] != '0') && digits_value(p)
        <= 255 {
        Some(digits_value(p) as u8)
    } else {
        None
    }
}

pub open spec fn dotted(a: u8, b: u8, c: u8, d: u8) -> u32 {
    (((((a as u32) << 8) | b as u32) << 8 | c as u32) << 8) | d as u32
}

/// A dotted IPv4 address.
pub open spec fn ipv4(s: Seq<char>) -> Option<u32> {
    let p = split(s, '.');
    if p.len() == 4 {
        match (octet(p[0]), octet(p[1]), octet(p[2]), octet(p[3])) {
            (Some(a), Some(b), Some(c), Some(d)) => Some(dotted(a, b, c, d)),
            _ => None,
        }
    } else {
        None
    }
}

/// The groups, where every piece is one.
pub open spec fn hex_groups(p: Seq<Seq<char>>) -> Option<Seq<u16>>
    decreases p.len(),
{
    if p.len() == 0 {
        Some(Seq::empty())
    } else {
        match (hex_groups(p.drop_last()), hex_group(p.last())) {
            (Some(l), Some(g)) => Some(l.push(g)),
            _ => None,
        }
    }
}

/// Groups between colons; the last piece may be a dotted address where `v4_ok`.
pub open spec fn group_list(s: Seq<char>, v4_ok: bool) -> Option<Seq<u16>> {
    let p = split(s, ':');
    if s.len() == 0 {
        Some(Seq::empty())
    } else if hex_groups(p) is Some {
        hex_groups(p)
    } else if v4_ok {
        match (hex_groups(p.drop_last()), ipv4(p.last())) {
            (Some(l), Some(a)) => Some(l.push((a >> 16) as u16).push((a & 0xffff) as u16)),
            _ => None,
        }
    } else {
        None
    }
}

/// The position of the first double colon, or the length.
pub open spec fn gap(s: Seq<char>) -> int
    decreases s.len(),
{
    if s.len() < 2 {
        s.len() as int
    } else if s[0] == ':' && s[1] == ':' {
        0
    } else {
        1 + gap(s.subrange(1, s.len() as int))
    }
}

pub open spec fn group_bits(g: Seq<u16>) -> u128
    decreases g.len(),
{
    if g.len() == 0 {
        0
    } else {
        (group_bits(g.drop_last()) << 16) | g.last() as u128
    }
}

pub open spec fn zeros(n: nat) -> Seq<u16> {
    Seq::new(n, |i: int| 0u16)
}

/// Eight groups, or fewer around one double colon that stands for the zero groups
/// between them; a dotted address may stand for the last two groups.
pub open spec fn ipv6(s: Seq<char>) -> Option<u128> {
    let k = gap(s);
    if k == s.len() {
        match group_list(s, true) {
            Some(g) => if g.len() == 8 {
                Some(group_bits(g))
            } else {
                None
            },
            None => None,
        }
    } else {
        match (
            group_list(s.subrange(0, k), false),
            group_list(s.subrange(k + 2, s.len() as int), true),
        ) {
            (Some(h), Some(t)) => if h.len() + t.len() <= 7 {
                Some(group_bits(h + zeros((8 - h.len() - t.len()) as nat) + t))
            } else {
                None
            },
            _ => None,
        }
    }
}

/// An address in text form.
pub open spec fn ip(s: Seq<char>) -> Option<IpAddr> {
    match ipv4(s) {
        Some(a) => Some(IpAddr::V4(a)),
        None => match ipv6(s) {
            Some(a) => Some(IpAddr::V6(a)),
            None => None,
        },
    }
}

/// A network in address and prefix notation, or what is wrong with it.
pub open spec fn cidr(s: Seq<char>) -> Result<Cidr, Seq<char>> {
    let k = find(s, '/');
    if k == s.len() {
        Err("CIDR must use address/prefix notation"@)
    } else {
        match ip(s.subrange(0, k)) {
            None => Err("invalid IP address"@),
            Some(address) => match parse_uint(s.subrange(k + 1, s.len() as int), 255) {
                None => Err("invalid CIDR prefix"@),
                Some(prefix) => if address is V4 && prefix > 32 {
                    Err("CIDR prefix must be between 0 and 32"@)
                } else if address is V6 && prefix > 128 {
                    Err("CIDR prefix must be between 0 and 128"@)
                } else {
                    Ok(Cidr { address, prefix: prefix as u8 })
                },
            },
        }
    }
}

fn read_octet(p: &Vec<char>) -> (r: Option<u8>)
    ensures
        r == octet(p@),
{
    let n: usize = p.len();
    if n == 0 || n > 3 || (n > 1 && p[0] == '0') {
        return None;
    }
    let mut i: usize = 0;
    while i < n
        invariant
            n == p@.len(),
            i <= n,
            forall|j: int| 0 <= j < i ==> is_digit(#[trigger] p@[j]),
        decreases n - i,
    {
        if !digit(p[i]) {
            assert(!is_digit(p@[i as int]));
            return None;
        }
        i = i + 1;
    }
    assert(is_digit(p@[0]));
    match read_uint(p, 255) {
        Some(v) => Some(v as u8),
        None => None,
    }
}

fn read_ipv4(s: &Vec<char>) -> (r: Option<u32>)
    ensures
        r == ipv4(s@),
{
    let p = split_of(s, '.');
    assert(p@.len() == split(s@, '.').len());
    if p.len() != 4 {
        return None;
    }
    assert(forall|i: int| 0 <= i < 4 ==> p@[i]@ == split(s@, '.')[i]);
    match (read_octet(&p[0]), read_octet(&p[1]), read_octet(&p[2]), read_octet(&p[3])) {
        (Some(a), Some(b), Some(c), Some(d)) => Some(
            (((((a as u32) << 8) | b as u32) << 8 | c as u32) << 8) | d as u32,
        ),
        _ => None,
    }
}

fn read_group(p: &Vec<char>) -> (r: Option<u16>)
    ensures
        r == hex_group(p@),
{
    let n: usize = p.len();
    if n == 0 || n > 4 {
        return None;
    }
    let mut i: usize = 0;
    let mut v: u16 = 0;
    assert(p@.subrange(0, 0) =~= Seq::<char>::empty());
    while i < n
        invariant
            n == p@.len(),
            i <= n,
            forall|j: int| 0 <= j < i ==> is_hex(#[trigger] p@[j]),
            v == hex_bits(p@.subrange(0, i as int)),
        decreases n - i,
    {
        let c: u32 = p[i] as u32;
        assert(p@.subrange(0, i + 1).drop_last() =~= p@.subrange(0, i as int));
        let d: u8;
        if 48 <= c && c <= 57 {
            d = (c - 48) as u8;
        } else if 97 <= c && c <= 102 {
            d = (c - 87) as u8;
        } else if 65 <= c && c <= 70 {
            d = (c - 55) as u8;
        } else {
            assert(!is_hex(p@[i as int]));
            return None;
        }
        v = (v << 4) | d as u16;
        i = i + 1;
    }
    assert(p@.subrange(0, n as int) =~= p@);
    Some(v)
}

fn read_groups(p: &Vec<Vec<char>>, n: usize) -> (r: Option<Vec<u16>>)
    requires
        n <= p@.len(),
    ensures
        match r {
            Some(g) => hex_groups(texts(p@).subrange(0, n as int)) == Some(g@),
            None => hex_groups(texts(p@).subrange(0, n as int)) is None,
        },
    decreases n,
{
    let ghost t = texts(p@).subrange(0, n as int);
    if n == 0 {
        let r: Vec<u16> = Vec::new();
        assert(r@ =~= Seq::<u16>::empty());
        return Some(r);
    }
    assert(t.drop_last() =~= texts(p@).subrange(0, n - 1));
    match (read_groups(p, n - 1), read_group(&p[n - 1])) {
        (Some(mut l), Some(g)) => {
            l.push(g);
            Some(l)
        },
        _ => None,
    }
}

fn read_group_list(s: &Vec<char>, v4_ok: bool) -> (r: Option<Vec<u16>>)
    ensures
        match r {
            Some(g) => group_list(s@, v4_ok) == Some(g@),
            None => group_list(s@, v4_ok) is None,
        },
{
    if s.len() == 0 {
        let r: Vec<u16> = Vec::new();
        assert(r@ =~= Seq::<u16>::empty());
        return Some(r);
    }
    let p = split_of(s, ':');
    let n: usize = p.len();
    let ghost t = split(s@, ':');
    assert(texts(p@) == t);
    assert(t.len() == n);
    assert(t.subrange(0, n as int) =~= t);
    assert(t.subrange(0, n - 1) =~= t.drop_last());
    match read_groups(&p, n) {
        Some(g) => Some(g),
        None => {
            if !v4_ok {
                return None;
            }
            match (read_groups(&p, n - 1), read_ipv4(&p[n - 1])) {
                (Some(mut l), Some(a)) => {
                    l.push((a >> 16) as u16);
                    l.push((a & 0xffff) as u16);
                    Some(l)
                },
                _ => None,
            }
        },
    }
}

proof fn lemma_gap(s: Seq<char>)
    ensures
        0 <= gap(s) <= s.len(),
        gap(s) < s.len() ==> gap(s) + 2 <= s.len(),
    decreases s.len(),
{
    if s.len() >= 2 {
        lemma_gap(s.subrange(1, s.len() as int));
    }
}

fn find_gap(s: &Vec<char>) -> (k: usize)
    ensures
        k == gap(s@),
        k <= s@.len(),
        k < s@.len() ==> k + 2 <= s@.len(),
{
    let mut i: usize = 0;
    let n: usize = s.len();
    assert(s@.subrange(0, n as int) =~= s@);
    while i < n && n - i >= 2
        invariant
            n == s@.len(),
            i <= n,
            gap(s@) == i + gap(s@.subrange(i as int, n as int)),
        decreases n - i,
    {
        let ghost t = s@.subrange(i as int, n as int);
        if s[i] == ':' && s[i + 1] == ':' {
            assert(gap(t) == 0);
            return i;
        }
        assert(t.subrange(1, t.len() as int) =~= s@.subrange(i + 1, n as int));
        i = i + 1;
    }
    proof {
        lemma_gap(s@);
    }
    n
}

fn pack_groups(g: &Vec<u16>) -> (r: u128)
    ensures
        r == group_bits(g@),
{
    let mut r: u128 = 0;
    let mut i: usize = 0;
    assert(g@.subrange(0, 0) =~= Seq::<u16>::empty());
    while i < g.len()
        invariant
            i <= g@.len(),
            r == group_bits(g@.subrange(0, i as int)),
        decreases g@.len() - i,
    {
        assert(g@.subrange(0, i + 1).drop_last() =~= g@.subrange(0, i as int));
        r = (r << 16) | g[i] as u128;
        i = i + 1;
    }
    assert(g@.subrange(0, g@.len() as int) =~= g@);
    r
}

fn read_ipv6(s: &Vec<char>) -> (r: Option<u128>)
    ensures
        r == ipv6(s@),
{
    let k: usize = find_gap(s);
    let n: usize = s.len();
    if k == n {
        match read_group_list(s, true) {
            Some(g) => if g.len() == 8 {
                Some(pack_groups(&g))
            } else {
                None
            },
            None => None,
        }
    } else {
        match (read_group_list(&part(s, 0, k), false), read_group_list(&part(s, k + 2, n), true)) {
            (Some(h), Some(t)) => {
                if h.len() > 7 || t.len() > 7 - h.len() {
                    return None;
                }
                let ghost whole = h@ + zeros((8 - h@.len() - t@.len()) as nat) + t@;
                let mut g: Vec<u16> = Vec::new();
                let mut i: usize = 0;
                while i < 8
                    invariant
                        i <= 8,
                        h@.len() + t@.len() <= 7,
                        whole == h@ + zeros((8 - h@.len() - t@.len()) as nat) + t@,
                        g@ == whole.subrange(0, i as int),
                    decreases 8 - i,
                {
                    let v: u16 = if i < h.len() {
                        h[i]
                    } else if i < 8 - t.len() {
                        0
                    } else {
                        t[i - (8 - t.len())]
                    };
                    assert(v == whole[i as int]);
                    g.push(v);
                    i = i + 1;
                    assert(whole.subrange(0, i as int) =~= whole.subrange(0, i - 1).push(v));
                }
                assert(whole.subrange(0, 8) =~= whole);
                Some(pack_groups(&g))
            },
            _ => None,
        }
    }
}

/// Reads an address in text form.
pub fn read_ip(s: &Vec<char>) -> (r: Option<IpAddr>)
    ensures
        r == ip(s@),
{
    match read_ipv4(s) {
        Some(a) => Some(IpAddr::V4(a)),
        None => match read_ipv6(s) {
            Some(a) => Some(IpAddr::V6(a)),
            None => None,
        },
    }
}

/// Reads a network in address and prefix notation.
pub fn parse_cidr(s: &Vec<char>) -> (r: Result<Cidr, Vec<char>>)
    ensures
        match r {
            Ok(c) => cidr(s@) == Ok::<Cidr, Seq<char>>(c) && c.wf(),
            Err(m) => cidr(s@) == Err::<Cidr, Seq<char>>(m@),
        },
{
    let k: usize = find_of(s, '/');
    if k == s.len() {
        return Err(crate::text::chars_of("CIDR must use address/prefix notation"));
    }
    let address = match read_ip(&part(s, 0, k)) {
        Some(a) => a,
        None => {
            return Err(crate::text::chars_of("invalid IP address"));
        },
    };
    let prefix: u8 = match read_uint(&part(s, k + 1, s.len()), 255) {
        Some(p) => p as u8,
        None => {
            return Err(crate::text::chars_of("invalid CIDR prefix"));
        },
    };
    match address {
        IpAddr::V4(_) => {
            if prefix > 32 {
                return Err(crate::text::chars_of("CIDR prefix must be between 0 and 32"));
            }
        },
        IpAddr::V6(_) => {
            if prefix > 128 {
                return Err(crate::text::chars_of("CIDR prefix must be between 0 and 128"));
            }
        },
    }
    Ok(Cidr { address, prefix })
}

} // verus!
