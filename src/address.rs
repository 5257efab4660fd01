//! IPv4 addresses and their strict dotted-decimal form.
use vstd::prelude::*;
use crate::text::{decimal, digit_run, digit_run_at, chars_of};

verus! {

/// An IPv4 address, held as its four octets in network order.
#[derive(PartialEq, Eq, Structural, Clone, Copy, Debug, Hash)]
pub struct Ipv4Address {
    pub a: u8,
    pub b: u8,
    pub c: u8,
    pub d: u8,
}

impl Ipv4Address {
    pub fn new(a: u8, b: u8, c: u8, d: u8) -> (r: Ipv4Address)
        ensures
            r == (Ipv4Address { a, b, c, d }),
    {
        Ipv4Address { a, b, c, d }
    }
}

/// The octet that a group of digits denotes: one to three digits, no
/// leading zero unless the group is `0` itself, and a value up to 255.
pub open spec fn octet_of(g: Seq<char>) -> Option<u8> {
    if 1 <= g.len() <= 3 && (g.len() == 1 || g[0] != '0') && decimal(g) <= 255 {
        Some(decimal(g) as u8)
    } else {
        None
    }
}

/// The `n` dot-separated octets of `s` from position `i` to its end.
pub open spec fn octets_from(s: Seq<char>, i: int, n: nat) -> Option<Seq<u8>>
    decreases n,
{
    let k = digit_run(s, i);
    if i < 0 || i > s.len() {
        None
    } else {
        match octet_of(s.subrange(i, i + k)) {
            None => None,
            Some(o) => if n <= 1 {
                if i + k == s.len() {
                    Some(seq![o])
                } else {
                    None
                }
            } else if i + k < s.len() && s[i + k] == '.' {
                match octets_from(s, i + k + 1, (n - 1) as nat) {
                    Some(rest) => Some(seq![o] + rest),
                    None => None,
                }
            } else {
                None
            },
        }
    }
}

/// The address that `s` writes in strict dotted-decimal form, if any.
pub open spec fn ipv4_of(s: Seq<char>) -> Option<Ipv4Address> {
    match octets_from(s, 0, 4) {
        Some(os) => Some(Ipv4Address { a: os[0], b: os[1], c: os[2], d: os[3] }),
        None => None,
    }
}

proof fn lemma_octets_len(s: Seq<char>, i: int, n: nat)
    requires
        n >= 1,
        octets_from(s, i, n) is Some,
    ensures
        octets_from(s, i, n)->0.len() == n,
    decreases n,
{
    let k = digit_run(s, i);
    if n > 1 {
        lemma_octets_len(s, i + k + 1, (n - 1) as nat);
    }
}

/// The decimal value of the `k` digits of `s` at `i`.
fn decimal_at(s: &Vec<char>, i: usize, k: usize) -> (v: u32)
    requires
        k <= 3,
        i + k <= s@.len(),
        k <= digit_run(s@, i as int),
    ensures
        v == decimal(s@.subrange(i as int, i + k)),
        v < 1000,
{
    let n: usize = s.len();
    let mut v: u32 = 0;
    let mut j: usize = 0;
    while j < k
        invariant
            n == s@.len(),
            j <= k <= 3,
            i + k <= s@.len(),
            k <= digit_run(s@, i as int),
            v == decimal(s@.subrange(i as int, i + j)),
            j == 0 ==> v < 1,
            j == 1 ==> v < 10,
            j == 2 ==> v < 100,
            j == 3 ==> v < 1000,
        decreases k - j,
    {
        proof {
            lemma_digit_in_run(s@, i as int, j as int);
        }
        let d: u32 = (s[i + j] as u32) - ('0' as u32);
        assert(s@.subrange(i as int, i + j + 1).drop_last() =~= s@.subrange(i as int, i + j));
        v = v * 10 + d;
        j = j + 1;
    }
    v
}

/// Every position inside a run of digits holds a digit.
pub proof fn lemma_digit_in_run(s: Seq<char>, i: int, j: int)
    requires
        0 <= i,
        0 <= j < digit_run(s, i),
    ensures
        crate::text::is_digit(s[i + j]),
    decreases j,
{
    if j > 0 {
        lemma_digit_in_run(s, i + 1, j - 1);
    }
}

/// The octet written at `i`, and the position after it.
fn octet_at(s: &Vec<char>, i: usize) -> (r: Option<(u8, usize)>)
    requires
        i <= s@.len(),
    ensures
        match r {
            Some((o, e)) => octet_of(s@.subrange(i as int, e as int)) == Some(o)
                && e == i + digit_run(s@, i as int),
            None => octet_of(s@.subrange(i as int, i + digit_run(s@, i as int))) is None,
        },
{
    let n: usize = s.len();
    let k = digit_run_at(s, i);
    if k < 1 || k > 3 {
        return None;
    }
    if k > 1 && s[i] == '0' {
        return None;
    }
    let v = decimal_at(s, i, k);
    if v > 255 {
        return None;
    }
    Some((v as u8, i + k))
}

/// The `n` dot-separated octets of `s` from position `i` to its end.
fn octets_at(s: &Vec<char>, i: usize, n: usize) -> (r: Option<Vec<u8>>)
    requires
        i <= s@.len(),
        1 <= n,
    ensures
        match r {
            Some(v) => octets_from(s@, i as int, n as nat) == Some(v@),
            None => octets_from(s@, i as int, n as nat) is None,
        },
    decreases n,
{
    match octet_at(s, i) {
        None => None,
        Some((o, e)) => {
            if n == 1 {
                if e == s.len() {
                    Some(vec![o])
                } else {
                    None
                }
            } else if e < s.len() && s[e] == '.' {
                match octets_at(s, e + 1, n - 1) {
                    Some(rest) => {
                        let mut v = vec![o];
                        let mut rest = rest;
                        v.append(&mut rest);
                        Some(v)
                    },
                    None => None,
                }
            } else {
                None
            }
        },
    }
}

/// Parses an IPv4 address in strict dotted-decimal form: four groups of
/// one to three digits separated by dots, each at most 255 and without a
/// leading zero. Anything else, an IPv6 address among it, gives `None`.
pub fn parse_ipv4(s: &str) -> (r: Option<Ipv4Address>)
    ensures
        r == ipv4_of(s@),
{
    let cs = chars_of(s);
    ipv4_from_chars(&cs)
}

pub(crate) fn ipv4_from_chars(s: &Vec<char>) -> (r: Option<Ipv4Address>)
    ensures
        r == ipv4_of(s@),
{
    match octets_at(s, 0, 4) {
        Some(os) => {
            proof {
                lemma_octets_len(s@, 0, 4);
            }
            Some(Ipv4Address { a: os[0], b: os[1], c: os[2], d: os[3] })
        },
        None => None,
    }
}

} // verus!
