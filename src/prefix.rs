//! IP prefixes, ordered by address then length, and the entries of an
//! aggregate that carry them.
use ipnet::{Ipv4Net, Ipv6Net};
use vstd::prelude::*;

verus! {

/// An IPv4 network: a base address and a prefix length.
#[derive(Debug, Clone, Copy, PartialEq, Eq, Hash, PartialOrd, Ord)]
pub struct Ipv4Prefix {
    pub addr: u32,
    pub len: u8,
}

/// An IPv6 network: a base address and a prefix length.
#[derive(Debug, Clone, Copy, PartialEq, Eq, Hash, PartialOrd, Ord)]
pub struct Ipv6Prefix {
    pub addr: u128,
    pub len: u8,
}

impl Ipv4Prefix {
    /// A prefix length an IPv4 address can have.
    pub open spec fn wf(&self) -> bool {
        self.len <= 32
    }

    /// The prefix with this address and length; `None` when the length is
    /// over 32.
    pub fn new(addr: u32, len: u8) -> (r: Option<Ipv4Prefix>)
        ensures
            len <= 32 ==> r == Some(Ipv4Prefix { addr, len }),
            len > 32 ==> r is None,
    {
        if len <= 32 {
            Some(Ipv4Prefix { addr, len })
        } else {
            None
        }
    }
}

impl Ipv6Prefix {
    /// A prefix length an IPv6 address can have.
    pub open spec fn wf(&self) -> bool {
        self.len <= 128
    }

    /// The prefix with this address and length; `None` when the length is
    /// over 128.
    pub fn new(addr: u128, len: u8) -> (r: Option<Ipv6Prefix>)
        ensures
            len <= 128 ==> r == Some(Ipv6Prefix { addr, len }),
            len > 128 ==> r is None,
    {
        if len <= 128 {
            Some(Ipv6Prefix { addr, len })
        } else {
            None
        }
    }
}

/// A prefix type with the total order of its family: by address, then by
/// prefix length.
pub trait Prefix: Sized + Copy {
    /// The position of the prefix in that order.
    spec fn rank(&self) -> int;

    /// Whether `self` comes strictly before `other`.
    fn precedes(&self, other: &Self) -> (r: bool)
        ensures
            r == (self.rank() < other.rank()),
    ;

    /// Two prefixes of the same rank are the same prefix.
    proof fn lemma_rank_injective(a: Self, b: Self)
        ensures
            a.rank() == b.rank() ==> a == b,
    ;
}

impl Prefix for Ipv4Prefix {
    open spec fn rank(&self) -> int {
        (self.addr as int) * 256 + (self.len as int)
    }

    fn precedes(&self, other: &Self) -> (r: bool) {
        self.addr < other.addr || (self.addr == other.addr && self.len < other.len)
    }

    proof fn lemma_rank_injective(a: Self, b: Self) {
        if a.rank() == b.rank() {
            let (x, y, l, m) = (a.addr as int, b.addr as int, a.len as int, b.len as int);
            assert(x == y) by (nonlinear_arith)
                requires
                    x * 256 + l == y * 256 + m,
                    0 <= l < 256,
                    0 <= m < 256,
            ;
        }
    }
}

impl Prefix for Ipv6Prefix {
    open spec fn rank(&self) -> int {
        (self.addr as int) * 256 + (self.len as int)
    }

    fn precedes(&self, other: &Self) -> (r: bool) {
        self.addr < other.addr || (self.addr == other.addr && self.len < other.len)
    }

    proof fn lemma_rank_injective(a: Self, b: Self) {
        if a.rank() == b.rank() {
            let (x, y, l, m) = (a.addr as int, b.addr as int, a.len as int, b.len as int);
            assert(x == y) by (nonlinear_arith)
                requires
                    x * 256 + l == y * 256 + m,
                    0 <= l < 256,
                    0 <= m < 256,
            ;
        }
    }
}

/// A prefix of an aggregate, with the kind that classifies it.
#[derive(Debug)]
pub struct Entry<T> {
    pub range: T,
    pub kind: Option<String>,
}

impl<T: Prefix> Entry<T> {
    /// A copy of the entry.
    pub fn duplicate(&self) -> (r: Entry<T>)
        ensures
            r == *self,
    {
        let kind = match &self.kind {
            Some(k) => Some(k.clone()),
            None => None,
        };
        Entry { range: self.range, kind }
    }
}

/// The prefixes of a sequence of entries, in order.
pub open spec fn ranges_of<T>(entries: Seq<Entry<T>>) -> Seq<T> {
    entries.map_values(|e: Entry<T>| e.range)
}

/// A sequence of prefixes in strictly increasing order: an ordered set.
pub open spec fn strictly_sorted<T: Prefix>(s: Seq<T>) -> bool {
    forall|i: int, j: int| 0 <= i < j < s.len() ==> #[trigger] s[i].rank() < #[trigger] s[j].rank()
}

/// The address and length of the IPv4 network a text names in CIDR
/// notation, as ipnet reads it; `None` for text it refuses.
pub uninterp spec fn ipv4_cidr(s: Seq<char>) -> Option<(u32, u8)>;

/// The address and length of the IPv6 network a text names in CIDR
/// notation, as ipnet reads it; `None` for text it refuses.
pub uninterp spec fn ipv6_cidr(s: Seq<char>) -> Option<(u128, u8)>;

/// Relies on ipnet's `FromStr` for `Ipv4Net`, with `addr` and `prefix_len`:
/// the network the whole text names, whose length is at most 32.
#[verifier::external_body]
fn ipv4_from_str(s: &str) -> (r: Option<Ipv4Prefix>)
    ensures
        r matches Some(p) ==> ipv4_cidr(s@) == Some((p.addr, p.len)) && p.len <= 32,
        r is None ==> ipv4_cidr(s@) is None,
{
    match s.parse::<Ipv4Net>() {
        Ok(n) => Some(Ipv4Prefix { addr: u32::from(n.addr()), len: n.prefix_len() }),
        Err(_) => None,
    }
}

/// Relies on ipnet's `FromStr` for `Ipv6Net`, with `addr` and `prefix_len`:
/// the network the whole text names, whose length is at most 128.
#[verifier::external_body]
fn ipv6_from_str(s: &str) -> (r: Option<Ipv6Prefix>)
    ensures
        r matches Some(p) ==> ipv6_cidr(s@) == Some((p.addr, p.len)) && p.len <= 128,
        r is None ==> ipv6_cidr(s@) is None,
{
    match s.parse::<Ipv6Net>() {
        Ok(n) => Some(Ipv6Prefix { addr: u128::from(n.addr()), len: n.prefix_len() }),
        Err(_) => None,
    }
}

/// Reads an IPv4 prefix written in CIDR notation, such as `10.0.1.0/25`.
pub fn parse_ipv4_prefix(s: &str) -> (r: Option<Ipv4Prefix>)
    ensures
        r matches Some(p) ==> ipv4_cidr(s@) == Some((p.addr, p.len)) && p.wf(),
        r is None ==> ipv4_cidr(s@) is None,
{
    ipv4_from_str(s)
}

/// Reads an IPv6 prefix written in CIDR notation, such as `2001:db8::/48`.
pub fn parse_ipv6_prefix(s: &str) -> (r: Option<Ipv6Prefix>)
    ensures
        r matches Some(p) ==> ipv6_cidr(s@) == Some((p.addr, p.len)) && p.wf(),
        r is None ==> ipv6_cidr(s@) is None,
{
    ipv6_from_str(s)
}

} // verus!
