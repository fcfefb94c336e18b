//! Addresses and networks.

use crate::config::ip::{cidr, ip, octet, Cidr, IpAddr};
use crate::laws::texts::{lemma_decimal_is_digits, lemma_split_more, lemma_uncut};
use crate::text::{
    decimal, has_char, is_digit, law_decimal_reads_back, lemma_decimal, lemma_find_is, split,
};
use vstd::prelude::*;

verus! {

/// An address as it is written: four numbers with dots between them.
pub open spec fn written_address(a: u8, b: u8, c: u8, d: u8) -> Seq<char> {
    decimal(a as nat) + seq!['.'] + decimal(b as nat) + seq!['.'] + decimal(c as nat) + seq!['.']
        + decimal(d as nat)
}

proof fn lemma_octet(a: u8)
    ensures
        octet(decimal(a as nat)) == Some(a),
        !has_char(decimal(a as nat), '.'),
        !has_char(decimal(a as nat), '/'),
{
    let d = decimal(a as nat);
    lemma_decimal(a as nat);
    lemma_decimal_is_digits(a as nat);
    assert forall|i: int| 0 <= i < d.len() implies d[i] != '.' && d[i] != '/' by {
        assert(is_digit(d[i]));
    }
    if a >= 10 {
        assert(decimal((a / 10) as nat).len() > 0) by {
            lemma_decimal((a / 10) as nat);
        }
        if a >= 100 {
            let h = (a / 10) as nat;
            assert(decimal(h) == decimal(h / 10).push((h % 10 + 48) as char));
            assert(decimal(h / 10).len() == 1);
            assert(d.len() == 3);
            assert(d[0] == decimal(h / 10)[0]);
            assert(d[0] as u32 == h / 10 + 48);
        } else {
            assert(decimal((a / 10) as nat).len() == 1);
            assert(d.len() == 2);
            assert(d[0] == decimal((a / 10) as nat)[0]);
            assert(d[0] as u32 == a / 10 + 48);
        }
    }
}

/// An address of four numbers is the number that they make in base 256, the first one most
/// significant.
pub proof fn law_addresses_are_read(a: u8, b: u8, c: u8, d: u8)
    ensures
        ip(written_address(a, b, c, d)) == Some(
            IpAddr::V4((a * 16777216 + b * 65536 + c * 256 + d) as u32),
        ),
{
    lemma_octet(a);
    lemma_octet(b);
    lemma_octet(c);
    lemma_octet(d);
    let (x, y, z, w) = (
        decimal(a as nat),
        decimal(b as nat),
        decimal(c as nat),
        decimal(d as nat),
    );
    let s = written_address(a, b, c, d);
    lemma_uncut(x, '.');
    lemma_split_more(x, '.', y);
    lemma_split_more(x + seq!['.'] + y, '.', z);
    lemma_split_more(x + seq!['.'] + y + seq!['.'] + z, '.', w);
    assert(split(s, '.') =~= seq![x, y, z, w]);
    assert((((((a as u32) << 8) | b as u32) << 8 | c as u32) << 8) | d as u32 == a * 16777216 + b
        * 65536 + c * 256 + d) by (bit_vector);
}

/// A network is an address, a slash and the number of its leading bits, which are at most
/// all of them.
pub proof fn law_networks_are_read(a: u8, b: u8, c: u8, d: u8, prefix: u8)
    ensures
        match cidr(written_address(a, b, c, d) + seq!['/'] + decimal(prefix as nat)) {
            Ok(n) => prefix <= 32 && n == (Cidr {
                address: IpAddr::V4((a * 16777216 + b * 65536 + c * 256 + d) as u32),
                prefix,
            }),
            Err(_) => prefix > 32,
        },
{
    law_addresses_are_read(a, b, c, d);
    lemma_octet(a);
    lemma_octet(b);
    lemma_octet(c);
    lemma_octet(d);
    law_decimal_reads_back(prefix as nat, 255);
    let (x, y, z, w) = (
        decimal(a as nat),
        decimal(b as nat),
        decimal(c as nat),
        decimal(d as nat),
    );
    let s = written_address(a, b, c, d);
    let p = decimal(prefix as nat);
    assert forall|i: int| 0 <= i < s.len() implies s[i] != '/' by {
        let (l, m, n) = (x.len() as int, y.len() as int, z.len() as int);
        if i < l {
            assert(s[i] == x[i]);
        } else if l < i < l + 1 + m {
            assert(s[i] == y[i - l - 1]);
        } else if l + 1 + m < i < l + m + n + 2 {
            assert(s[i] == z[i - l - m - 2]);
        } else if i > l + m + n + 2 {
            assert(s[i] == w[i - l - m - n - 3]);
        }
    }
    let t = s + seq!['/'] + p;
    assert(t[s.len() as int] == '/');
    assert forall|i: int| 0 <= i < s.len() implies t[i] != '/' by {
        assert(t[i] == s[i]);
    }
    lemma_find_is(t, '/', s.len() as int);
    assert(t.subrange(0, s.len() as int) =~= s);
    assert(t.subrange(s.len() as int + 1, t.len() as int) =~= p);
}

/// A network holds exactly the addresses whose leading bits are its own: those that are the
/// same number once the other bits are cut off.
pub proof fn law_networks_hold_their_addresses(n: u32, v: u32, prefix: u8)
    requires
        prefix <= 32,
    ensures
        prefix == 0 ==> (Cidr { address: IpAddr::V4(n), prefix }).covers(IpAddr::V4(v)),
        prefix > 0 ==> ((Cidr { address: IpAddr::V4(n), prefix }).covers(IpAddr::V4(v)) <==> n >> (
        (32 - prefix) as u32) == v >> ((32 - prefix) as u32)),
        !(Cidr { address: IpAddr::V4(n), prefix }).covers(IpAddr::V6(v as u128)),
{
    let k = (32 - prefix) as u32;
    if prefix > 0 {
        assert((n ^ v) >> k == 0 <==> n >> k == v >> k) by (bit_vector)
            requires
                k < 32,
        ;
    }
}

} // verus!
