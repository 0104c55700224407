use gtctl::params::{estimate_ipv4, CurrentParams, Params};
use gtctl::prefix::{Entry, Ipv4Prefix, Ipv6Prefix};
use gtctl::reconcile::{
    minus, plan_changes, plan_ipv4, plan_ipv6, replace_vars, run_mode, runs_to_perform, Mode,
    RunInput,
};

fn v4(a: u8, b: u8, c: u8, d: u8, len: u8) -> Ipv4Prefix {
    Ipv4Prefix::new(u32::from_be_bytes([a, b, c, d]), len).unwrap()
}

fn entry<T>(range: T) -> Entry<T> {
    Entry { range, kind: Some("blocked".to_string()) }
}

fn ranges<T: Copy>(v: &[Entry<T>]) -> Vec<T> {
    v.iter().map(|e| e.range).collect()
}

#[test]
fn test_run_mode() {
    let cur: CurrentParams<()> = CurrentParams(vec![Params::new(10, 10), Params::new(20, 10)]);
    let est = Params::new(15, 15);
    assert_eq!(Mode::Replace, run_mode(&cur, &est));

    let cur: CurrentParams<()> = CurrentParams(vec![Params::new(20, 20), Params::new(15, 10)]);
    let est = Params::new(15, 15);
    assert_eq!(Mode::Replace, run_mode(&cur, &est));

    let cur: CurrentParams<()> = CurrentParams(vec![Params::new(20, 20), Params::new(15, 15)]);
    let est = Params::new(15, 15);
    assert_eq!(Mode::Update, run_mode(&cur, &est));
}

#[test]
fn run_mode_with_no_replica_updates() {
    let cur: CurrentParams<()> = CurrentParams(vec![]);
    assert_eq!(run_mode(&cur, &Params::new(100, 100)), Mode::Update);
}

#[test]
fn run_mode_raising_capacity_never_replaces() {
    let est = Params::new(15, 15);
    let low: CurrentParams<()> = CurrentParams(vec![Params::new(15, 15), Params::new(30, 0)]);
    assert_eq!(run_mode(&low, &est), Mode::Update);
    let raised: CurrentParams<()> = CurrentParams(vec![Params::new(16, 15), Params::new(30, 9)]);
    assert_eq!(run_mode(&raised, &est), Mode::Update);
}

#[test]
fn scenario_longer_prefix_forces_replace() {
    let old = vec![entry(v4(10, 0, 0, 0, 16))];
    let new = vec![entry(v4(10, 0, 0, 0, 16)), entry(v4(10, 0, 1, 0, 25))];
    let cur = CurrentParams(vec![Params::new(1, 0)]);
    let plan = plan_ipv4(&cur, &new, &old);
    assert_eq!(plan.estimate, Params::new(2, 1));
    assert_eq!(plan.mode, Mode::Replace);
    assert_eq!(ranges(&plan.changes.insert), ranges(&new));
    assert!(plan.changes.remove.is_empty());
}

#[test]
fn scenario_moved_prefix_updates() {
    let old = vec![entry(v4(192, 168, 0, 0, 24))];
    let new = vec![entry(v4(192, 168, 1, 0, 24))];
    let cur = CurrentParams(vec![Params::new(5, 5)]);
    let plan = plan_ipv4(&cur, &new, &old);
    assert_eq!(plan.estimate, Params::new(1, 0));
    assert_eq!(plan.mode, Mode::Update);
    assert_eq!(ranges(&plan.changes.insert), vec![v4(192, 168, 1, 0, 24)]);
    assert_eq!(ranges(&plan.changes.remove), vec![v4(192, 168, 0, 0, 24)]);
}

#[test]
fn update_round_trip_rebuilds_new_set() {
    let old = vec![
        entry(v4(1, 0, 0, 0, 8)),
        entry(v4(2, 0, 0, 0, 8)),
        entry(v4(2, 0, 0, 0, 16)),
        entry(v4(9, 0, 0, 0, 8)),
    ];
    let new = vec![
        entry(v4(2, 0, 0, 0, 8)),
        entry(v4(3, 0, 0, 0, 8)),
        entry(v4(9, 0, 0, 0, 8)),
        entry(v4(9, 9, 0, 0, 16)),
    ];
    let c = plan_changes(Mode::Update, &new, &old);
    assert_eq!(ranges(&c.insert), vec![v4(3, 0, 0, 0, 8), v4(9, 9, 0, 0, 16)]);
    assert_eq!(ranges(&c.remove), vec![v4(1, 0, 0, 0, 8), v4(2, 0, 0, 0, 16)]);
    let mut rebuilt: Vec<Ipv4Prefix> = ranges(&old)
        .into_iter()
        .filter(|r| !ranges(&c.remove).contains(r))
        .collect();
    rebuilt.extend(ranges(&c.insert));
    rebuilt.sort();
    assert_eq!(rebuilt, ranges(&new));
}

#[test]
fn unchanged_set_is_an_empty_update() {
    let group = vec![entry(v4(10, 0, 0, 0, 16)), entry(v4(10, 0, 1, 0, 25))];
    let again = vec![entry(v4(10, 0, 0, 0, 16)), entry(v4(10, 0, 1, 0, 25))];
    let est = estimate_ipv4(&ranges(&group));
    let cur = CurrentParams(vec![Params::new(est.num_rules, est.num_tbl8s)]);
    let plan = plan_ipv4(&cur, &group, &again);
    assert_eq!(plan.mode, Mode::Update);
    assert!(plan.changes.insert.is_empty());
    assert!(plan.changes.remove.is_empty());
}

#[test]
fn minus_keeps_entries_missing_from_other() {
    let a = vec![entry(v4(1, 0, 0, 0, 8)), entry(v4(1, 0, 0, 0, 9)), entry(v4(5, 0, 0, 0, 8))];
    let b = vec![entry(v4(1, 0, 0, 0, 9))];
    let d = minus(&a, &b);
    assert_eq!(ranges(&d), vec![v4(1, 0, 0, 0, 8), v4(5, 0, 0, 0, 8)]);
    assert_eq!(d[0].kind.as_deref(), Some("blocked"));
    assert!(minus(&b, &a).is_empty());
}

#[test]
fn plan_ipv6_replace_on_growth() {
    let a: u128 = 0x2001_0db8_0001_0000_0000_0000_0000_0000;
    let new = vec![entry(Ipv6Prefix::new(a, 48).unwrap())];
    let cur = CurrentParams(vec![Params::new(1, 2)]);
    let plan = plan_ipv6(&cur, &new, &vec![]);
    assert_eq!(plan.estimate, Params::new(1, 3));
    assert_eq!(plan.mode, Mode::Replace);
    assert_eq!(plan.changes.insert.len(), 1);
}

#[test]
fn replace_vars_fills_family_and_kind() {
    let kind = Some("web".to_string());
    assert_eq!(replace_vars("lpm_{proto}_{kind}", "ipv4", &kind), "lpm_ipv4_web");
    assert_eq!(replace_vars("{kind}/{proto}-{proto}", "ipv6", &None), "/ipv6-ipv6");
    assert_eq!(replace_vars("plain", "ipv6", &kind), "plain");
}

#[test]
fn leftover_snapshot_is_processed_first() {
    assert_eq!(runs_to_perform(true), vec![RunInput::Leftover, RunInput::Given]);
    assert_eq!(runs_to_perform(false), vec![RunInput::Given]);
}
