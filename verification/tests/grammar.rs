//! Cross-checks the verified field parsers against the combinator
//! library's own number parsers, which the wire protocol's fields follow.

use cybergrape::text::{parse_hex12, parse_i32_dec, parse_u32_dec};
use nom::character::complete::{hex_digit1, i32 as nom_i32, u32 as nom_u32};
use nom::IResult;

const SIGNED_CASES: &[&str] = &[
    "42,",
    "-42,",
    "+7,",
    "0",
    "2147483647,",
    "-2147483648,",
    "2147483648,",
    "-2147483649,",
    "99999999999999999999,",
    "abc",
    "",
    "12x",
    "-",
    "+",
    "--1",
];

const UNSIGNED_CASES: &[&str] = &[
    "37,",
    "0,",
    "4294967295,",
    "4294967296,",
    "+5,",
    "-5,",
    "99999999999999999999,",
    "x",
    "",
];

#[test]
fn signed_fields_match_the_combinator_reference() {
    for s in SIGNED_CASES {
        let mine = parse_i32_dec(s.as_bytes(), 0);
        let theirs: IResult<&str, i32> = nom_i32(*s);
        match (mine, theirs) {
            (Some((v, end)), Ok((rest, nv))) => {
                assert_eq!(v, nv, "value disagreement on {:?}", s);
                assert_eq!(&s[end..], rest, "remainder disagreement on {:?}", s);
            },
            (None, Err(_)) => {},
            (m, t) => panic!("disagreement on {:?}: {:?} vs {:?}", s, m, t),
        }
    }
}

#[test]
fn unsigned_fields_match_the_combinator_reference() {
    for s in UNSIGNED_CASES {
        let mine = parse_u32_dec(s.as_bytes(), 0);
        let theirs: IResult<&str, u32> = nom_u32(*s);
        match (mine, theirs) {
            (Some((v, end)), Ok((rest, nv))) => {
                assert_eq!(v, nv, "value disagreement on {:?}", s);
                assert_eq!(&s[end..], rest, "remainder disagreement on {:?}", s);
            },
            (None, Err(_)) => {},
            (m, t) => panic!("disagreement on {:?}: {:?} vs {:?}", s, m, t),
        }
    }
}

#[test]
fn ids_match_the_combinator_reference() {
    // an id is a maximal hex run that must be exactly twelve digits long
    let cases = [
        "CCF9578E0D8A,",
        "ccf9578e0d8a\"",
        "CCF9578E0D8",
        "CCF9578E0D8A0",
        "g",
        "",
    ];
    for s in cases {
        let mine = parse_hex12(s.as_bytes(), 0);
        let theirs: IResult<&str, &str> = hex_digit1(s);
        match (mine, theirs) {
            (Some((v, end)), Ok((rest, digits))) => {
                assert_eq!(digits.len(), 12, "a parsed id must be twelve digits in {:?}", s);
                assert_eq!(v, u64::from_str_radix(digits, 16).unwrap());
                assert_eq!(&s[end..], rest);
            },
            (None, Ok((_, digits))) => {
                assert_ne!(digits.len(), 12, "only a non-id run may be refused in {:?}", s);
            },
            (None, Err(_)) => {},
            (m, t) => panic!("disagreement on {:?}: {:?} vs {:?}", s, m, t),
        }
    }
}
