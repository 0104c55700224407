//! Reconciliation of one (family, kind) group: the choice between replacing
//! the dataplane table and patching it, and the changes each choice sends.
use vstd::prelude::*;

use crate::params::{
    estimate_ipv4, estimate_ipv6, tbl8_count_v6, tbl8_parents_v4, CurrentParams, Params,
};
use crate::prefix::{ranges_of, strictly_sorted, Entry, Ipv4Prefix, Ipv6Prefix, Prefix};

verus! {

broadcast use vstd::seq_lib::group_filter_ensures, vstd::seq::Seq::lemma_filter_push;

/// How a table is brought to a new prefix set.
#[derive(Debug, Clone, Copy, PartialEq, Eq, Structural)]
pub enum Mode {
    /// Reallocate the table and insert the whole set.
    Replace,
    /// Insert the new prefixes and remove the ones that left.
    Update,
}

/// Whether the estimate is larger than a replica's capacity, comparing
/// rules first and tbl8s on a tie.
pub open spec fn exceeds<T>(est: Params<T>, cap: Params<T>) -> bool {
    est.num_rules > cap.num_rules || (est.num_rules == cap.num_rules && est.num_tbl8s
        > cap.num_tbl8s)
}

/// `Replace` when the estimate exceeds the capacity of some replica,
/// `Update` when every replica can hold it.
pub open spec fn mode_for<T>(cur: Seq<Params<T>>, est: Params<T>) -> Mode {
    if exists|i: int| 0 <= i < cur.len() && exceeds(est, #[trigger] cur[i]) {
        Mode::Replace
    } else {
        Mode::Update
    }
}

/// Decides how to bring the table to a set whose estimate is `est`.
pub fn run_mode<T>(cur: &CurrentParams<T>, est: &Params<T>) -> (r: Mode)
    ensures
        r == mode_for(cur.0@, *est),
{
    let mut i: usize = 0;
    while i < cur.0.len()
        invariant
            i <= cur.0@.len(),
            forall|k: int| 0 <= k < i ==> !exceeds(*est, #[trigger] cur.0@[k]),
        decreases cur.0@.len() - i,
    {
        let c = &cur.0[i];
        if est.num_rules > c.num_rules || (est.num_rules == c.num_rules && est.num_tbl8s
            > c.num_tbl8s) {
            assert(exceeds(*est, cur.0@[i as int]));
            return Mode::Replace;
        }
        i += 1;
    }
    Mode::Update
}

/// Raising the capacity of replicas never turns an `Update` into a
/// `Replace`.
pub proof fn lemma_mode_monotonic<T>(cur: Seq<Params<T>>, raised: Seq<Params<T>>, est: Params<T>)
    requires
        raised.len() == cur.len(),
        forall|i: int|
            0 <= i < cur.len() ==> (#[trigger] raised[i]).num_rules >= cur[i].num_rules
                && raised[i].num_tbl8s >= cur[i].num_tbl8s,
    ensures
        mode_for(cur, est) == Mode::Update ==> mode_for(raised, est) == Mode::Update,
{
    if mode_for(cur, est) == Mode::Update {
        assert forall|i: int| 0 <= i < raised.len() implies !exceeds(est, #[trigger] raised[i]) by {
            assert(!exceeds(est, cur[i]));
        }
    }
}

/// The entries to insert into a table and to remove from it.
#[derive(Debug)]
pub struct Changes<T> {
    pub insert: Vec<Entry<T>>,
    pub remove: Vec<Entry<T>>,
}

/// Whether an entry's prefix is absent from `rs`.
pub open spec fn absent_from<T>(rs: Seq<T>) -> spec_fn(Entry<T>) -> bool {
    |e: Entry<T>| !rs.contains(e.range)
}

/// The entries of the new set whose prefix the old set lacks.
pub open spec fn to_insert<T>(new: Seq<Entry<T>>, old: Seq<Entry<T>>) -> Seq<Entry<T>> {
    new.filter(absent_from(ranges_of(old)))
}

/// The entries of the old set whose prefix the new set lacks.
pub open spec fn to_remove<T>(new: Seq<Entry<T>>, old: Seq<Entry<T>>) -> Seq<Entry<T>> {
    old.filter(absent_from(ranges_of(new)))
}

/// The entries of `a` whose prefix `b` lacks, in their order in `a`.
pub fn minus<T: Prefix>(a: &Vec<Entry<T>>, b: &Vec<Entry<T>>) -> (r: Vec<Entry<T>>)
    requires
        strictly_sorted(ranges_of(a@)),
        strictly_sorted(ranges_of(b@)),
    ensures
        r@ == a@.filter(absent_from(ranges_of(b@))),
{
    let ghost rb = ranges_of(b@);
    let ghost pred = absent_from(rb);
    let mut out: Vec<Entry<T>> = Vec::new();
    let mut j: usize = 0;
    let mut i: usize = 0;
    while i < a.len()
        invariant
            i <= a@.len(),
            j <= b@.len(),
            rb == ranges_of(b@),
            pred == absent_from(rb),
            strictly_sorted(ranges_of(a@)),
            strictly_sorted(ranges_of(b@)),
            i < a@.len() ==> forall|k: int| 0 <= k < j ==> (#[trigger] b@[k]).range.rank()
                < a@[i as int].range.rank(),
            out@ == a@.subrange(0, i as int).filter(pred),
        decreases a@.len() - i,
    {
        let x = a[i].range;
        assert(ranges_of(a@)[i as int] == x);
        while j < b.len() && b[j].range.precedes(&x)
            invariant
                i < a@.len(),
                j <= b@.len(),
                x == a@[i as int].range,
                forall|k: int| 0 <= k < j ==> (#[trigger] b@[k]).range.rank() < x.rank(),
            decreases b@.len() - j,
        {
            j += 1;
        }
        let found = j < b.len() && !x.precedes(&b[j].range);
        proof {
            if found {
                T::lemma_rank_injective(x, b@[j as int].range);
                assert(rb[j as int] == x);
            } else {
                assert forall|k: int| 0 <= k < rb.len() implies rb[k] != x by {
                    if k >= j {
                        assert(ranges_of(b@)[j as int] == b@[j as int].range);
                        assert(ranges_of(b@)[k] == b@[k].range);
                    } else {
                        assert(b@[k].range.rank() < x.rank());
                    }
                }
            }
            assert(a@.subrange(0, i + 1) == a@.subrange(0, i as int).push(a@[i as int]));
        }
        if !found {
            out.push(a[i].duplicate());
        }
        i += 1;
        proof {
            if i < a@.len() {
                assert(ranges_of(a@)[i - 1] == a@[i - 1].range);
                assert(ranges_of(a@)[i as int] == a@[i as int].range);
            }
        }
    }
    assert(a@.subrange(0, a@.len() as int) == a@);
    out
}

/// A copy of the entries, in order.
pub fn copy_entries<T: Prefix>(v: &Vec<Entry<T>>) -> (r: Vec<Entry<T>>)
    ensures
        r@ == v@,
{
    let mut out: Vec<Entry<T>> = Vec::new();
    let mut i: usize = 0;
    while i < v.len()
        invariant
            i <= v@.len(),
            out@ == v@.subrange(0, i as int),
        decreases v@.len() - i,
    {
        out.push(v[i].duplicate());
        i += 1;
    }
    out
}

/// The changes that bring a table holding `old` to `new` in the given mode:
/// the whole new set for `Replace`; for `Update`, the entries that came and
/// those that left.
pub fn plan_changes<T: Prefix>(mode: Mode, new: &Vec<Entry<T>>, old: &Vec<Entry<T>>) -> (r: Changes<T>)
    requires
        strictly_sorted(ranges_of(new@)),
        strictly_sorted(ranges_of(old@)),
    ensures
        mode == Mode::Replace ==> r.insert@ == new@ && r.remove@.len() == 0,
        mode == Mode::Update ==> r.insert@ == to_insert(new@, old@) && r.remove@ == to_remove(
            new@,
            old@,
        ),
{
    match mode {
        Mode::Replace => Changes { insert: copy_entries(new), remove: Vec::new() },
        Mode::Update => Changes { insert: minus(new, old), remove: minus(old, new) },
    }
}

/// The plan for one group: the estimate of the new set, the mode, and the
/// changes to send.
#[derive(Debug)]
pub struct GroupPlan<T> {
    pub estimate: Params<T>,
    pub mode: Mode,
    pub changes: Changes<T>,
}

fn ranges_v4(v: &Vec<Entry<Ipv4Prefix>>) -> (r: Vec<Ipv4Prefix>)
    ensures
        r@ == ranges_of(v@),
{
    let mut out: Vec<Ipv4Prefix> = Vec::new();
    let mut i: usize = 0;
    while i < v.len()
        invariant
            i <= v@.len(),
            out@ == ranges_of(v@.subrange(0, i as int)),
        decreases v@.len() - i,
    {
        out.push(v[i].range);
        i += 1;
        assert(ranges_of(v@.subrange(0, i as int)) =~= ranges_of(v@.subrange(0, i - 1)).push(
            v@[i - 1].range,
        ));
    }
    assert(v@.subrange(0, v@.len() as int) == v@);
    out
}

fn ranges_v6(v: &Vec<Entry<Ipv6Prefix>>) -> (r: Vec<Ipv6Prefix>)
    ensures
        r@ == ranges_of(v@),
{
    let mut out: Vec<Ipv6Prefix> = Vec::new();
    let mut i: usize = 0;
    while i < v.len()
        invariant
            i <= v@.len(),
            out@ == ranges_of(v@.subrange(0, i as int)),
        decreases v@.len() - i,
    {
        out.push(v[i].range);
        i += 1;
        assert(ranges_of(v@.subrange(0, i as int)) =~= ranges_of(v@.subrange(0, i - 1)).push(
            v@[i - 1].range,
        ));
    }
    assert(v@.subrange(0, v@.len() as int) == v@);
    out
}

/// Plans an IPv4 group, given the capacities the table's replicas report.
pub fn plan_ipv4(
    cur: &CurrentParams<Ipv4Prefix>,
    new: &Vec<Entry<Ipv4Prefix>>,
    old: &Vec<Entry<Ipv4Prefix>>,
) -> (r: GroupPlan<Ipv4Prefix>)
    requires
        strictly_sorted(ranges_of(new@)),
        strictly_sorted(ranges_of(old@)),
    ensures
        r.estimate.num_rules == new@.len(),
        r.estimate.num_tbl8s == tbl8_parents_v4(ranges_of(new@)).len(),
        r.mode == mode_for(cur.0@, r.estimate),
        r.mode == Mode::Replace ==> r.changes.insert@ == new@ && r.changes.remove@.len() == 0,
        r.mode == Mode::Update ==> r.changes.insert@ == to_insert(new@, old@)
            && r.changes.remove@ == to_remove(new@, old@),
{
    let nets = ranges_v4(new);
    let estimate = estimate_ipv4(&nets);
    let mode = run_mode(cur, &estimate);
    let changes = plan_changes(mode, new, old);
    GroupPlan { estimate, mode, changes }
}

/// Plans an IPv6 group, given the capacities the table's replicas report.
pub fn plan_ipv6(
    cur: &CurrentParams<Ipv6Prefix>,
    new: &Vec<Entry<Ipv6Prefix>>,
    old: &Vec<Entry<Ipv6Prefix>>,
) -> (r: GroupPlan<Ipv6Prefix>)
    requires
        strictly_sorted(ranges_of(new@)),
        strictly_sorted(ranges_of(old@)),
        new@.len() <= usize::MAX / 16,
    ensures
        r.estimate.num_rules == new@.len(),
        r.estimate.num_tbl8s == tbl8_count_v6(ranges_of(new@)),
        r.mode == mode_for(cur.0@, r.estimate),
        r.mode == Mode::Replace ==> r.changes.insert@ == new@ && r.changes.remove@.len() == 0,
        r.mode == Mode::Update ==> r.changes.insert@ == to_insert(new@, old@)
            && r.changes.remove@ == to_remove(new@, old@),
{
    let nets = ranges_v6(new);
    let estimate = estimate_ipv6(&nets);
    let mode = run_mode(cur, &estimate);
    let changes = plan_changes(mode, new, old);
    GroupPlan { estimate, mode, changes }
}

proof fn lemma_filtered_range<T>(s: Seq<Entry<T>>, rs: Seq<T>, x: T)
    ensures
        ranges_of(s.filter(absent_from(rs))).contains(x) <==> ranges_of(s).contains(x)
            && !rs.contains(x),
{
    let f = s.filter(absent_from(rs));
    if ranges_of(f).contains(x) {
        let j = choose|j: int| 0 <= j < ranges_of(f).len() && ranges_of(f)[j] == x;
        assert(f.contains(f[j]));
        s.lemma_filter_contains_rev(absent_from(rs), f[j]);
        let i = choose|i: int| 0 <= i < s.len() && s[i] == f[j];
        assert(ranges_of(s)[i] == x);
    }
    if ranges_of(s).contains(x) && !rs.contains(x) {
        let i = choose|i: int| 0 <= i < ranges_of(s).len() && ranges_of(s)[i] == x;
        assert(f.contains(s[i]));
        let j = choose|j: int| 0 <= j < f.len() && f[j] == s[i];
        assert(ranges_of(f)[j] == x);
    }
}

/// Applying an update to the old set gives the new set: the prefixes of the
/// old set, less those removed, with those inserted.
pub proof fn lemma_update_round_trip<T>(new: Seq<Entry<T>>, old: Seq<Entry<T>>)
    ensures
        ranges_of(old).to_set().difference(ranges_of(to_remove(new, old)).to_set()).union(
            ranges_of(to_insert(new, old)).to_set(),
        ) == ranges_of(new).to_set(),
{
    let lhs = ranges_of(old).to_set().difference(ranges_of(to_remove(new, old)).to_set()).union(
        ranges_of(to_insert(new, old)).to_set(),
    );
    assert forall|x: T| lhs.contains(x) <==> ranges_of(new).to_set().contains(x) by {
        lemma_filtered_range(old, ranges_of(new), x);
        lemma_filtered_range(new, ranges_of(old), x);
    }
    assert(lhs =~= ranges_of(new).to_set());
}

/// With nothing new, an update inserts and removes nothing; and when every
/// replica already holds the estimate, as after a replacement with it, the
/// table is updated rather than replaced.
pub proof fn lemma_unchanged_set_changes_nothing<T>(
    group: Seq<Entry<T>>,
    cur: Seq<Params<T>>,
    est: Params<T>,
)
    requires
        forall|i: int|
            0 <= i < cur.len() ==> (#[trigger] cur[i]).num_rules > est.num_rules || (
            cur[i].num_rules == est.num_rules && cur[i].num_tbl8s >= est.num_tbl8s),
    ensures
        to_insert(group, group).len() == 0,
        to_remove(group, group).len() == 0,
        mode_for(cur, est) == Mode::Update,
{
    let f = to_insert(group, group);
    if f.len() > 0 {
        lemma_filtered_range(group, ranges_of(group), f[0].range);
        assert(ranges_of(f)[0] == f[0].range);
    }
    assert(!exists|i: int| 0 <= i < cur.len() && exceeds(est, #[trigger] cur[i]));
}

/// Relies on `str::replace`: every occurrence of `from`, found left to right
/// without overlap, replaced by `to`.
#[verifier::external_body]
fn replace_all(s: &str, from: &str, to: &str) -> (r: String)
    requires
        from@.len() > 0,
    ensures
        r@ == replaced(s@, from@, to@),
{
    s.replace(from, to)
}

/// `s` with every occurrence of `from`, found left to right without overlap,
/// replaced by `to`.
pub open spec fn replaced(s: Seq<char>, from: Seq<char>, to: Seq<char>) -> Seq<char>
    decreases s.len(),
{
    if from.len() == 0 || s.len() < from.len() {
        s
    } else if s.subrange(0, from.len() as int) == from {
        to + replaced(s.subrange(from.len() as int, s.len() as int), from, to)
    } else {
        seq![s[0]] + replaced(s.subrange(1, s.len() as int), from, to)
    }
}

/// The text a kind stands for in a name: the kind, or nothing.
pub open spec fn kind_text(kind: Option<String>) -> Seq<char> {
    match kind {
        Some(k) => k@,
        None => seq![],
    }
}

/// Fills a name pattern: `{proto}` becomes the family, `{kind}` the kind.
pub fn replace_vars(s: &str, proto: &str, kind: &Option<String>) -> (r: String)
    ensures
        r@ == replaced(replaced(s@, "{proto}"@, proto@), "{kind}"@, kind_text(*kind)),
{
    proof {
        reveal_strlit("{proto}");
        reveal_strlit("{kind}");
    }
    let kind_str: &str = match kind {
        Some(k) => k.as_str(),
        None => "",
    };
    proof {
        reveal_strlit("");
    }
    assert(kind_str@ =~= kind_text(*kind));
    let named = replace_all(s, "{proto}", proto);
    replace_all(named.as_str(), "{kind}", kind_str)
}

/// The aggregate a reconciliation pass reads as the new set.
#[derive(Debug, Clone, Copy, PartialEq, Eq, Structural)]
pub enum RunInput {
    /// The current snapshot left by a pass that did not finish.
    Leftover,
    /// The aggregate the caller gave.
    Given,
}

/// The passes one invocation makes: a current snapshot left on disk means a
/// pass was cut short, and it is redone before the given aggregate.
pub fn runs_to_perform(leftover_current: bool) -> (r: Vec<RunInput>)
    ensures
        leftover_current ==> r@ == seq![RunInput::Leftover, RunInput::Given],
        !leftover_current ==> r@ == seq![RunInput::Given],
{
    let mut runs: Vec<RunInput> = Vec::new();
    if leftover_current {
        runs.push(RunInput::Leftover);
    }
    runs.push(RunInput::Given);
    runs
}

} // verus!
