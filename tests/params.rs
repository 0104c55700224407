use gtctl::params::{
    estimate_ipv4, estimate_ipv6, parse_lines, parse_params, Params, ParseError,
};
use gtctl::prefix::{parse_ipv4_prefix, parse_ipv6_prefix, Ipv4Prefix, Ipv6Prefix};

fn v4(a: u8, b: u8, c: u8, d: u8, len: u8) -> Ipv4Prefix {
    Ipv4Prefix::new(u32::from_be_bytes([a, b, c, d]), len).unwrap()
}

fn v6(addr: u128, len: u8) -> Ipv6Prefix {
    Ipv6Prefix::new(addr, len).unwrap()
}

#[test]
fn test_parse_lines() {
    let lines = "";
    assert!(parse_lines::<()>(lines).is_err());

    let lines = "foo";
    assert!(parse_lines::<()>(lines).is_err());

    let lines = "99:101,102";
    assert_eq!(
        vec![Params::new(101, 102)],
        parse_lines::<()>(lines).unwrap()
    );

    let lines = r#"
            0: 1, 2
            2: 5, 6
            1: 3, 4
        "#;

    assert_eq!(
        vec![Params::new(1, 2), Params::new(3, 4), Params::new(5, 6)],
        parse_lines::<()>(lines).unwrap()
    );
}

#[test]
fn parse_rejects_letters_in_a_field() {
    match parse_lines::<()>("42:abc,3") {
        Err(ParseError::Line(l)) => assert_eq!(l, "42:abc,3"),
        other => panic!("unexpected {:?}", other),
    }
}

#[test]
fn parse_names_the_first_bad_line() {
    match parse_lines::<()>("0: 1, 2\n1:2\n x\n") {
        Err(ParseError::Line(l)) => assert_eq!(l, "1:2"),
        other => panic!("unexpected {:?}", other),
    }
}

#[test]
fn parse_blank_report_is_empty() {
    assert!(matches!(parse_lines::<()>(" \n\t\n"), Err(ParseError::Empty)));
    assert!(matches!(parse_lines::<()>(""), Err(ParseError::Empty)));
}

#[test]
fn parse_overflow_is_parse_int_error() {
    let r = parse_lines::<()>("0: 1, 99999999999999999999999999");
    assert!(matches!(r, Err(ParseError::ParseInt(_))));
}

#[test]
fn parse_crlf_and_surrounding_space() {
    let r = parse_lines::<()>("  3 :1,2\r\n").unwrap_err();
    assert!(matches!(r, ParseError::Line(ref l) if l == "  3 :1,2"));
    let v = parse_lines::<()>("\t3:\t1,\u{3000}2 \r\n1:7,8\r\n").unwrap();
    assert_eq!(v, vec![Params::new(7, 8), Params::new(1, 2)]);
}

#[test]
fn parse_equal_ids_keep_their_order() {
    let v = parse_lines::<()>("1: 5, 5\n0: 9, 9\n1: 4, 4\n").unwrap();
    assert_eq!(v, vec![Params::new(9, 9), Params::new(5, 5), Params::new(4, 4)]);
}

#[test]
fn parse_params_wraps_lines() {
    let c = parse_params::<()>("7: 10, 20").unwrap();
    assert_eq!(c.0, vec![Params::new(10, 20)]);
    assert!(parse_params::<()>("7: 10").is_err());
}

#[test]
fn estimate_ipv4_short_prefixes_need_no_tbl8() {
    let nets = vec![v4(10, 0, 0, 0, 8), v4(10, 1, 0, 0, 16), v4(10, 1, 2, 0, 24)];
    let p = estimate_ipv4(&nets);
    assert_eq!(p.num_rules, 3);
    assert_eq!(p.num_tbl8s, 0);
}

#[test]
fn estimate_ipv4_one_tbl8_per_parent() {
    let nets = vec![
        v4(10, 0, 1, 0, 25),
        v4(10, 0, 1, 128, 25),
        v4(10, 0, 1, 64, 26),
        v4(10, 0, 1, 7, 32),
    ];
    let p = estimate_ipv4(&nets);
    assert_eq!(p, Params::new(4, 1));
    let nets = vec![v4(10, 0, 1, 0, 25), v4(10, 0, 2, 0, 25), v4(10, 0, 0, 0, 16)];
    assert_eq!(estimate_ipv4(&nets), Params::new(3, 2));
}

#[test]
fn estimate_ipv4_empty() {
    assert_eq!(estimate_ipv4(&vec![]), Params::new(0, 0));
}

#[test]
fn estimate_ipv6_single_48() {
    let addr: u128 = 0x2001_0db8_0001_0000_0000_0000_0000_0000;
    assert_eq!(estimate_ipv6(&vec![v6(addr, 48)]), Params::new(1, 3));
}

#[test]
fn estimate_ipv6_levels_by_length() {
    let addr: u128 = 0x2001_0db8_0001_0002_0003_0004_0005_0006;
    assert_eq!(estimate_ipv6(&vec![v6(addr, 24)]).num_tbl8s, 0);
    assert_eq!(estimate_ipv6(&vec![v6(addr, 25)]).num_tbl8s, 1);
    assert_eq!(estimate_ipv6(&vec![v6(addr, 33)]).num_tbl8s, 2);
    assert_eq!(estimate_ipv6(&vec![v6(addr, 128)]).num_tbl8s, 13);
}

#[test]
fn estimate_ipv6_shared_levels_counted_once() {
    let a: u128 = 0x2001_0db8_0001_0000_0000_0000_0000_0000;
    let b: u128 = 0x2001_0db8_0100_0000_0000_0000_0000_0000;
    // Both share the /24 and /32 tables; each has its own /40 table.
    let p = estimate_ipv6(&vec![v6(a, 48), v6(b, 48)]);
    assert_eq!(p, Params::new(2, 4));
    // The same truncated value at depths 24 and 32 is two tables.
    let c: u128 = 0x2001_0d00_0000_0000_0000_0000_0000_0000;
    let p = estimate_ipv6(&vec![v6(c, 32), v6(c, 40)]);
    assert_eq!(p, Params::new(2, 2));
}

#[test]
fn prefix_lengths_are_bounded() {
    assert!(Ipv4Prefix::new(0, 33).is_none());
    assert_eq!(Ipv4Prefix::new(7, 32), Some(Ipv4Prefix { addr: 7, len: 32 }));
    assert!(Ipv6Prefix::new(0, 129).is_none());
    assert_eq!(Ipv6Prefix::new(9, 128), Some(Ipv6Prefix { addr: 9, len: 128 }));
}

#[test]
fn prefixes_parse_from_cidr_text() {
    assert_eq!(parse_ipv4_prefix("10.0.1.0/25"), Some(v4(10, 0, 1, 0, 25)));
    assert_eq!(parse_ipv4_prefix("10.0.1.0/33"), None);
    assert_eq!(parse_ipv4_prefix("ten"), None);
    let p = parse_ipv6_prefix("2001:db8:1::/48").unwrap();
    assert_eq!(p, v6(0x2001_0db8_0001_0000_0000_0000_0000_0000, 48));
    assert_eq!(parse_ipv6_prefix("2001:db8::/129"), None);
}
