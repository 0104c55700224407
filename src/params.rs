//! Table capacities: the estimate of what a prefix set needs, and the
//! capacities the dataplane reports for the tables it holds.
use std::collections::HashSet;
use std::marker::PhantomData;
use std::num::ParseIntError;

use vstd::prelude::*;
use vstd::set_lib::*;

use crate::prefix::{Ipv4Prefix, Ipv6Prefix};
use crate::report::{
    chars_of, field, is_blank, is_fitting_record, is_record, parse_line, text_between, LineOutcome,
};

verus! {

broadcast use vstd::std_specs::hash::group_hash_axioms;

/// Rule and tbl8 counts of one LPM table of the address family `T`.
#[derive(Debug, PartialEq, Eq)]
pub struct Params<T> {
    pub num_rules: usize,
    pub num_tbl8s: usize,
    pub phantom: PhantomData<T>,
}

impl<T> Params<T> {
    pub fn new(num_rules: usize, num_tbl8s: usize) -> (r: Params<T>)
        ensures
            r.num_rules == num_rules,
            r.num_tbl8s == num_tbl8s,
    {
        Params { num_rules, num_tbl8s, phantom: PhantomData }
    }
}

/// The capacities of the replicas of one table, in the order the dataplane
/// reports them.
#[derive(Debug)]
pub struct CurrentParams<T>(pub Vec<Params<T>>);

// ---------------------------------------------------------------------------
// IPv4: a root table on the first 24 bits, one tbl8 per /24 that holds a
// longer prefix.

/// The /24 network that contains an IPv4 address.
pub open spec fn parent24(addr: u32) -> u32 {
    addr & 0xffff_ff00u32
}

/// Positions of the prefixes longer than 24 bits.
pub open spec fn long_positions_v4(nets: Seq<Ipv4Prefix>) -> Set<int> {
    Set::new(|i: int| 0 <= i < nets.len() && nets[i].len > 24)
}

/// The /24 networks that need a tbl8: those holding a prefix longer than 24
/// bits.
pub open spec fn tbl8_parents_v4(nets: Seq<Ipv4Prefix>) -> Set<u32> {
    long_positions_v4(nets).map(|i: int| parent24(nets[i].addr))
}

proof fn lemma_positions_bounded(s: Set<int>, n: int)
    requires
        0 <= n,
        forall|i: int| #[trigger] s.contains(i) ==> 0 <= i < n,
    ensures
        s.finite(),
        s.len() <= n,
{
    lemma_int_range(0, n);
    lemma_len_subset(s, set_int_range(0, n));
}

proof fn lemma_parents_v4_push(nets: Seq<Ipv4Prefix>, p: Ipv4Prefix)
    ensures
        tbl8_parents_v4(nets.push(p)) == (if p.len > 24 {
            tbl8_parents_v4(nets).insert(parent24(p.addr))
        } else {
            tbl8_parents_v4(nets)
        }),
{
    let s = nets.push(p);
    let lhs = tbl8_parents_v4(s);
    let before = tbl8_parents_v4(nets);
    let rhs = if p.len > 24 {
        before.insert(parent24(p.addr))
    } else {
        before
    };
    assert forall|t: u32| lhs.contains(t) implies rhs.contains(t) by {
        let i = choose|i: int| long_positions_v4(s).contains(i) && parent24(s[i].addr) == t;
        if i < nets.len() {
            assert(long_positions_v4(nets).contains(i));
        }
    }
    assert forall|t: u32| rhs.contains(t) implies lhs.contains(t) by {
        if before.contains(t) {
            let i = choose|i: int| long_positions_v4(nets).contains(i) && parent24(nets[i].addr) == t;
            assert(long_positions_v4(s).contains(i));
        } else {
            assert(long_positions_v4(s).contains(nets.len() as int));
        }
    }
    assert(lhs =~= rhs);
}

/// The capacity an IPv4 LPM table needs for `nets`: one rule per prefix,
/// one tbl8 per distinct /24 that holds a prefix longer than 24 bits.
pub fn estimate_ipv4(nets: &Vec<Ipv4Prefix>) -> (r: Params<Ipv4Prefix>)
    ensures
        r.num_rules == nets@.len(),
        r.num_tbl8s == tbl8_parents_v4(nets@).len(),
{
    let mut parents: HashSet<u32> = HashSet::new();
    let mut i: usize = 0;
    while i < nets.len()
        invariant
            i <= nets@.len(),
            parents@ == tbl8_parents_v4(nets@.subrange(0, i as int)),
        decreases nets@.len() - i,
    {
        let net = nets[i];
        proof {
            assert(nets@.subrange(0, i + 1) == nets@.subrange(0, i as int).push(net));
            lemma_parents_v4_push(nets@.subrange(0, i as int), net);
        }
        if net.len > 24 {
            parents.insert(net.addr & 0xffff_ff00u32);
        }
        i += 1;
    }
    assert(nets@.subrange(0, nets@.len() as int) == nets@);
    Params::new(nets.len(), parents.len())
}

/// A prefix of at most 24 bits adds no tbl8 to an IPv4 estimate.
pub proof fn lemma_short_prefix_needs_no_tbl8(nets: Seq<Ipv4Prefix>, p: Ipv4Prefix)
    requires
        p.len <= 24,
    ensures
        tbl8_parents_v4(nets.push(p)).len() == tbl8_parents_v4(nets).len(),
{
    lemma_parents_v4_push(nets, p);
}

/// Prefixes that all lie in one /24 need at most one tbl8 between them.
pub proof fn lemma_shared_parent_needs_one_tbl8(nets: Seq<Ipv4Prefix>, parent: u32)
    requires
        forall|i: int| 0 <= i < nets.len() ==> parent24(#[trigger] nets[i].addr) == parent,
    ensures
        tbl8_parents_v4(nets).len() <= 1,
{
    let s = tbl8_parents_v4(nets);
    assert(s.subset_of(set![parent]));
    lemma_len_subset(s, set![parent]);
}

// ---------------------------------------------------------------------------
// IPv6: a root table on the first 24 bits, then one table per 8-bit stride.
// A prefix of length `l` needs a tbl8 at each depth 24, 32, 40, ... below
// `l`, identified by the address truncated to that depth.

/// The address with all bits past `depth` cleared.
pub open spec fn trunc6(addr: u128, depth: int) -> u128 {
    (addr >> ((128 - depth) as u128)) << ((128 - depth) as u128)
}

/// Positions of the prefixes longer than `depth`.
pub open spec fn deeper_positions_v6(nets: Seq<Ipv6Prefix>, depth: int) -> Set<int> {
    Set::new(|i: int| 0 <= i < nets.len() && depth < nets[i].len)
}

/// The tbl8s needed at `depth`: the distinct truncations to `depth` of the
/// prefixes longer than it.
pub open spec fn level_tbl8s_v6(nets: Seq<Ipv6Prefix>, depth: int) -> Set<u128> {
    deeper_positions_v6(nets, depth).map(|i: int| trunc6(nets[i].addr, depth))
}

/// The tbl8s needed at `depth` and at every stride below it.
pub open spec fn tbl8_count_v6_from(nets: Seq<Ipv6Prefix>, depth: int) -> nat
    decreases 136 - depth,
{
    if depth >= 128 {
        0
    } else {
        level_tbl8s_v6(nets, depth).len() + tbl8_count_v6_from(nets, depth + 8)
    }
}

/// The tbl8s an IPv6 LPM table needs for `nets`.
pub open spec fn tbl8_count_v6(nets: Seq<Ipv6Prefix>) -> nat {
    tbl8_count_v6_from(nets, 24)
}

proof fn lemma_level_v6_finite(nets: Seq<Ipv6Prefix>, depth: int)
    ensures
        level_tbl8s_v6(nets, depth).finite(),
        level_tbl8s_v6(nets, depth).len() <= nets.len(),
{
    let idx = deeper_positions_v6(nets, depth);
    lemma_positions_bounded(idx, nets.len() as int);
    lemma_map_size_bound(idx, level_tbl8s_v6(nets, depth), |i: int| trunc6(nets[i].addr, depth));
}

proof fn lemma_level_v6_push(nets: Seq<Ipv6Prefix>, p: Ipv6Prefix, depth: int)
    ensures
        level_tbl8s_v6(nets.push(p), depth) == (if depth < p.len {
            level_tbl8s_v6(nets, depth).insert(trunc6(p.addr, depth))
        } else {
            level_tbl8s_v6(nets, depth)
        }),
{
    let s = nets.push(p);
    let lhs = level_tbl8s_v6(s, depth);
    let before = level_tbl8s_v6(nets, depth);
    let rhs = if depth < p.len {
        before.insert(trunc6(p.addr, depth))
    } else {
        before
    };
    assert forall|t: u128| lhs.contains(t) implies rhs.contains(t) by {
        let i = choose|i: int|
            deeper_positions_v6(s, depth).contains(i) && trunc6(s[i].addr, depth) == t;
        if i < nets.len() {
            assert(deeper_positions_v6(nets, depth).contains(i));
        }
    }
    assert forall|t: u128| rhs.contains(t) implies lhs.contains(t) by {
        if before.contains(t) {
            let i = choose|i: int|
                deeper_positions_v6(nets, depth).contains(i) && trunc6(nets[i].addr, depth) == t;
            assert(deeper_positions_v6(s, depth).contains(i));
        } else {
            assert(deeper_positions_v6(s, depth).contains(nets.len() as int));
        }
    }
    assert(lhs =~= rhs);
}

/// The tbl8s needed at one depth for `nets`.
fn level_estimate_v6(nets: &Vec<Ipv6Prefix>, depth: u128) -> (r: usize)
    requires
        24 <= depth < 128,
    ensures
        r == level_tbl8s_v6(nets@, depth as int).len(),
        r <= nets@.len(),
{
    let mut seen: HashSet<u128> = HashSet::new();
    let mut i: usize = 0;
    while i < nets.len()
        invariant
            i <= nets@.len(),
            24 <= depth < 128,
            seen@ == level_tbl8s_v6(nets@.subrange(0, i as int), depth as int),
        decreases nets@.len() - i,
    {
        let net = nets[i];
        proof {
            assert(nets@.subrange(0, i + 1) == nets@.subrange(0, i as int).push(net));
            lemma_level_v6_push(nets@.subrange(0, i as int), net, depth as int);
        }
        if depth < net.len as u128 {
            let shift = 128 - depth;
            seen.insert((net.addr >> shift) << shift);
        }
        i += 1;
    }
    assert(nets@.subrange(0, nets@.len() as int) == nets@);
    proof {
        lemma_level_v6_finite(nets@, depth as int);
    }
    seen.len()
}

/// The capacity an IPv6 LPM table needs for `nets`: one rule per prefix,
/// one tbl8 per distinct truncation of a prefix to a depth 24, 32, ...
/// below its length. The bound on the length only keeps the count in a
/// `usize`; a vector of 32-byte prefixes never reaches it.
pub fn estimate_ipv6(nets: &Vec<Ipv6Prefix>) -> (r: Params<Ipv6Prefix>)
    requires
        nets@.len() <= usize::MAX / 16,
    ensures
        r.num_rules == nets@.len(),
        r.num_tbl8s == tbl8_count_v6(nets@),
{
    let mut total: usize = 0;
    let mut depth: u128 = 24;
    let mut levels: usize = 0;
    while depth < 128
        invariant
            depth == 24 + 8 * levels,
            levels <= 13,
            nets@.len() <= usize::MAX / 16,
            total <= levels * nets@.len(),
            total + tbl8_count_v6_from(nets@, depth as int) == tbl8_count_v6(nets@),
        decreases 128 - depth,
    {
        let n = level_estimate_v6(nets, depth);
        assert(total + n <= (levels + 1) * nets@.len()) by (nonlinear_arith)
            requires
                total <= levels * nets@.len(),
                n <= nets@.len(),
        ;
        assert((levels + 1) * nets@.len() <= 14 * nets@.len()) by (nonlinear_arith)
            requires
                levels <= 13,
        ;
        total = total + n;
        depth = depth + 8;
        levels = levels + 1;
    }
    Params::new(nets.len(), total)
}

/// The number of tbl8s a prefix of length `len` needs on its own: one per
/// 8-bit stride past the first 24 bits.
pub open spec fn strides_needed(len: int) -> int {
    if len <= 24 {
        0
    } else {
        (len - 24 + 7) / 8
    }
}

/// The depths from `depth` on at which the tbl8 of `p` was already counted
/// for `prev`.
pub open spec fn counted_tbl8s_v6(prev: Seq<Ipv6Prefix>, p: Ipv6Prefix, depth: int) -> nat
    decreases 136 - depth,
{
    if depth >= 128 {
        0
    } else {
        (if depth < p.len && level_tbl8s_v6(prev, depth).contains(trunc6(p.addr, depth)) {
            1nat
        } else {
            0nat
        }) + counted_tbl8s_v6(prev, p, depth + 8)
    }
}

/// The depths from `depth` on at which `p` adds a tbl8 not counted for
/// `prev`.
pub open spec fn fresh_tbl8s_v6(prev: Seq<Ipv6Prefix>, p: Ipv6Prefix, depth: int) -> nat
    decreases 136 - depth,
{
    if depth >= 128 {
        0
    } else {
        (if depth < p.len && !level_tbl8s_v6(prev, depth).contains(trunc6(p.addr, depth)) {
            1nat
        } else {
            0nat
        }) + fresh_tbl8s_v6(prev, p, depth + 8)
    }
}

proof fn lemma_push_adds_fresh(prev: Seq<Ipv6Prefix>, p: Ipv6Prefix, depth: int)
    ensures
        tbl8_count_v6_from(prev.push(p), depth) == tbl8_count_v6_from(prev, depth)
            + fresh_tbl8s_v6(prev, p, depth),
    decreases 136 - depth,
{
    if depth < 128 {
        lemma_push_adds_fresh(prev, p, depth + 8);
        lemma_level_v6_push(prev, p, depth);
        lemma_level_v6_finite(prev, depth);
    }
}

proof fn lemma_fresh_and_counted(prev: Seq<Ipv6Prefix>, p: Ipv6Prefix, depth: int)
    requires
        p.wf(),
        24 <= depth <= 128,
        depth % 8 == 0,
    ensures
        fresh_tbl8s_v6(prev, p, depth) + counted_tbl8s_v6(prev, p, depth) == (if p.len <= depth {
            0
        } else {
            (p.len - depth + 7) / 8
        }),
    decreases 136 - depth,
{
    if depth < 128 {
        lemma_fresh_and_counted(prev, p, depth + 8);
    }
}

/// What one more prefix adds to an IPv6 estimate: one tbl8 per stride past
/// the first 24 bits, less those whose truncated prefix the earlier prefixes
/// already counted; with no earlier prefix, none was counted.
pub proof fn lemma_prefix_tbl8s_v6(prev: Seq<Ipv6Prefix>, p: Ipv6Prefix)
    requires
        p.wf(),
    ensures
        tbl8_count_v6(prev.push(p)) == tbl8_count_v6(prev) + strides_needed(p.len as int)
            - counted_tbl8s_v6(prev, p, 24),
        prev.len() == 0 ==> counted_tbl8s_v6(prev, p, 24) == 0,
{
    lemma_push_adds_fresh(prev, p, 24);
    lemma_fresh_and_counted(prev, p, 24);
    if prev.len() == 0 {
        lemma_nothing_counted(prev, p, 24);
    }
}

proof fn lemma_nothing_counted(prev: Seq<Ipv6Prefix>, p: Ipv6Prefix, depth: int)
    requires
        prev.len() == 0,
    ensures
        counted_tbl8s_v6(prev, p, depth) == 0,
    decreases 136 - depth,
{
    if depth < 128 {
        lemma_nothing_counted(prev, p, depth + 8);
        assert(deeper_positions_v6(prev, depth) =~= Set::empty());
        assert(level_tbl8s_v6(prev, depth) =~= Set::empty());
    }
}

// ---------------------------------------------------------------------------
// The capacity report.

/// Why a capacity report was refused.
#[derive(Debug)]
pub enum ParseError {
    /// The report holds no record.
    Empty,
    /// A line is neither blank nor a record.
    Line(String),
    /// A record holds a number too large for a `usize`.
    ParseInt(ParseIntError),
}

/// The end of the line that starts at `i`: the next line feed, or the end
/// of the text.
pub open spec fn line_end(s: Seq<char>, i: int) -> int
    decreases s.len() - i,
{
    if 0 <= i < s.len() && s[i] != '\n' {
        line_end(s, i + 1)
    } else {
        i
    }
}

/// The line that starts at `i`, without its line feed or the carriage
/// return before it.
pub open spec fn line_at(s: Seq<char>, i: int) -> Seq<char> {
    let e = line_end(s, i);
    if i < e < s.len() && s[e - 1] == '\r' {
        s.subrange(i, e - 1)
    } else {
        s.subrange(i, e)
    }
}

proof fn lemma_line_end_bounds(s: Seq<char>, i: int)
    requires
        0 <= i <= s.len(),
    ensures
        i <= line_end(s, i) <= s.len(),
        line_end(s, i) < s.len() ==> s[line_end(s, i)] == '\n',
    decreases s.len() - i,
{
    if i < s.len() && s[i] != '\n' {
        lemma_line_end_bounds(s, i + 1);
    }
}

/// The lines of the text from position `i` on; a final line feed ends the
/// last line and starts no new one.
pub open spec fn lines_from(s: Seq<char>, i: int) -> Seq<Seq<char>>
    decreases s.len() + 1 - i,
    via lines_from_decreases
{
    if 0 <= i < s.len() {
        seq![line_at(s, i)] + lines_from(s, line_end(s, i) + 1)
    } else {
        seq![]
    }
}

#[via_fn]
proof fn lines_from_decreases(s: Seq<char>, i: int) {
    if 0 <= i < s.len() {
        lemma_line_end_bounds(s, i);
    }
}

/// A line a report may hold: blank, or a record whose numbers fit.
pub open spec fn line_ok(l: Seq<char>) -> bool {
    is_blank(l) || is_fitting_record(l)
}

/// The records of `ls` as `(id, rules, tbl8s)`, in order.
pub open spec fn records(ls: Seq<Seq<char>>) -> Seq<(usize, usize, usize)>
    decreases ls.len(),
{
    if ls.len() == 0 {
        seq![]
    } else {
        let l = ls.last();
        if is_fitting_record(l) {
            records(ls.drop_last()).push((field(l, 0) as usize, field(l, 1) as usize, field(l, 2) as usize))
        } else {
            records(ls.drop_last())
        }
    }
}

/// `out` is `input` rearranged by the permutation `perm` (`out[i]` is
/// `input[perm[i]]`) into order by id, records with equal ids in their order
/// in `input`.
pub open spec fn stable_order_by_id(
    input: Seq<(usize, usize, usize)>,
    out: Seq<(usize, usize, usize)>,
    perm: Seq<int>,
) -> bool {
    &&& perm.len() == input.len() == out.len()
    &&& forall|i: int| 0 <= i < perm.len() ==> 0 <= #[trigger] perm[i] < input.len()
    &&& forall|i: int, j: int| 0 <= i < j < perm.len() ==> perm[i] != perm[j]
    &&& forall|i: int| 0 <= i < out.len() ==> #[trigger] out[i] == input[perm[i]]
    &&& forall|i: int, j: int|
        0 <= i < j < out.len() ==> (#[trigger] out[i]).0 < (#[trigger] out[j]).0 || (out[i].0
            == out[j].0 && perm[i] < perm[j])
}

/// `out` holds the records of `input` ordered by id, records with equal ids
/// in their order in `input`.
pub open spec fn sorted_by_id(input: Seq<(usize, usize, usize)>, out: Seq<(usize, usize, usize)>) -> bool {
    exists|perm: Seq<int>| #[trigger] stable_order_by_id(input, out, perm)
}

/// A report every line of which is blank or a fitting record, with at least
/// one record.
pub open spec fn report_valid(s: Seq<char>) -> bool {
    &&& forall|k: int| 0 <= k < lines_from(s, 0).len() ==> line_ok(#[trigger] lines_from(s, 0)[k])
    &&& records(lines_from(s, 0)).len() > 0
}

/// The capacities of a valid report: its records ordered by id, ids dropped.
pub open spec fn report_params<T>(s: Seq<char>, v: Seq<Params<T>>) -> bool {
    exists|out: Seq<(usize, usize, usize)>|
        {
            &&& sorted_by_id(records(lines_from(s, 0)), out)
            &&& v.len() == out.len()
            &&& forall|i: int|
                0 <= i < v.len() ==> (#[trigger] v[i]).num_rules == out[i].1 && v[i].num_tbl8s
                    == out[i].2
        }
}

/// Line `k` is the first line of the report that is neither blank nor a
/// fitting record.
pub open spec fn first_fault(s: Seq<char>, k: int) -> bool {
    let ls = lines_from(s, 0);
    &&& 0 <= k < ls.len()
    &&& !line_ok(ls[k])
    &&& forall|i: int| 0 <= i < k ==> line_ok(#[trigger] ls[i])
}

/// The error a report draws.
pub open spec fn report_error(s: Seq<char>, e: ParseError) -> bool {
    let ls = lines_from(s, 0);
    match e {
        ParseError::Empty => (forall|k: int| 0 <= k < ls.len() ==> line_ok(#[trigger] ls[k]))
            && records(ls).len() == 0,
        ParseError::Line(t) => exists|k: int| first_fault(s, k) && !is_record(ls[k]) && t@ == ls[k],
        ParseError::ParseInt(_) => exists|k: int| first_fault(s, k) && is_record(ls[k]),
    }
}

/// Relies on `slice::sort_by_key`, a stable sort: the records ordered by
/// id, those with equal ids kept in their order.
#[verifier::external_body]
fn sort_by_id(v: &mut Vec<(usize, usize, usize)>)
    ensures
        sorted_by_id(old(v)@, final(v)@),
{
    v.sort_by_key(|r| r.0)
}

fn find_line_end(cs: &Vec<char>, i: usize) -> (r: usize)
    requires
        i <= cs@.len(),
    ensures
        r == line_end(cs@, i as int),
        i <= r <= cs@.len(),
{
    let mut j = i;
    while j < cs.len() && cs[j] != '\n'
        invariant
            i <= j <= cs@.len(),
            line_end(cs@, j as int) == line_end(cs@, i as int),
        decreases cs@.len() - j,
    {
        j += 1;
    }
    j
}

fn copy_range(cs: &Vec<char>, from: usize, to: usize) -> (r: Vec<char>)
    requires
        from <= to <= cs@.len(),
    ensures
        r@ == cs@.subrange(from as int, to as int),
{
    let mut out: Vec<char> = Vec::new();
    let mut k = from;
    while k < to
        invariant
            from <= k <= to <= cs@.len(),
            out@ == cs@.subrange(from as int, k as int),
        decreases to - k,
    {
        out.push(cs[k]);
        k += 1;
    }
    out
}

/// Reads a capacity report: the capacities of its records, ordered by id.
pub fn parse_lines<T>(s: &str) -> (r: Result<Vec<Params<T>>, ParseError>)
    ensures
        match r {
            Ok(v) => report_valid(s@) && report_params(s@, v@),
            Err(e) => report_error(s@, e),
        },
{
    let cs = chars_of(s);
    let n = cs.len();
    let mut recs: Vec<(usize, usize, usize)> = Vec::new();
    let mut i: usize = 0;
    let ghost mut done: Seq<Seq<char>> = seq![];
    while i < n
        invariant
            i <= n == cs@.len(),
            cs@ == s@,
            done + lines_from(cs@, i as int) == lines_from(cs@, 0),
            forall|k: int| 0 <= k < done.len() ==> line_ok(#[trigger] done[k]),
            recs@ == records(done),
        decreases n - i,
    {
        let e = find_line_end(&cs, i);
        let stop = if e < n && e > i && cs[e - 1] == '\r' {
            e - 1
        } else {
            e
        };
        let line = copy_range(&cs, i, stop);
        let ghost rest = lines_from(cs@, e + 1);
        assert(line@ == line_at(cs@, i as int));
        assert(lines_from(cs@, i as int) == seq![line@] + rest);
        assert(lines_from(cs@, 0)[done.len() as int] == line@) by {
            assert((done + lines_from(cs@, i as int))[done.len() as int] == line@);
        }
        assert(lines_from(cs@, 0).len() > done.len());
        match parse_line(&line) {
            LineOutcome::Blank => {},
            LineOutcome::Record(id, rules, tbl8s) => {
                recs.push((id, rules, tbl8s));
            },
            LineOutcome::Malformed => {
                let text = text_between(&cs, i, stop);
                assert(first_fault(s@, done.len() as int));
                return Err(ParseError::Line(text));
            },
            LineOutcome::Overflow(err) => {
                assert(first_fault(s@, done.len() as int));
                return Err(ParseError::ParseInt(err));
            },
        }
        proof {
            assert(done.push(line@).drop_last() == done);
            assert(done.push(line@) + rest =~= done + (seq![line@] + rest));
            done = done.push(line@);
        }
        if e < n {
            i = e + 1;
        } else {
            i = n;
        }
    }
    assert(done == lines_from(cs@, 0)) by {
        assert(done + lines_from(cs@, i as int) =~= done);
    }
    if recs.len() == 0 {
        return Err(ParseError::Empty);
    }
    let ghost unsorted = recs@;
    sort_by_id(&mut recs);
    let mut v: Vec<Params<T>> = Vec::new();
    let mut k: usize = 0;
    while k < recs.len()
        invariant
            k <= recs@.len(),
            v@.len() == k,
            forall|j: int|
                0 <= j < k ==> (#[trigger] v@[j]).num_rules == recs@[j].1 && v@[j].num_tbl8s
                    == recs@[j].2,
        decreases recs@.len() - k,
    {
        let rec = recs[k];
        v.push(Params::new(rec.1, rec.2));
        k += 1;
    }
    assert(sorted_by_id(records(lines_from(s@, 0)), recs@));
    Ok(v)
}

/// Reads a capacity report into the capacities of the table's replicas.
pub fn parse_params<T>(s: &str) -> (r: Result<CurrentParams<T>, ParseError>)
    ensures
        match r {
            Ok(c) => report_valid(s@) && report_params(s@, c.0@),
            Err(e) => report_error(s@, e),
        },
{
    match parse_lines(s) {
        Ok(v) => Ok(CurrentParams(v)),
        Err(e) => Err(e),
    }
}

/// A report with a line that is neither blank nor a record is refused, and
/// the error is not that of an empty report.
pub proof fn lemma_malformed_line_rejected(s: Seq<char>, k: int)
    requires
        0 <= k < lines_from(s, 0).len(),
        !is_blank(lines_from(s, 0)[k]),
        !is_record(lines_from(s, 0)[k]),
    ensures
        !report_valid(s),
        forall|e: ParseError| report_error(s, e) ==> !(e is Empty),
{
    assert(!line_ok(lines_from(s, 0)[k]));
}

} // verus!
