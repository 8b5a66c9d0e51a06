//! Behaviour of the five candidate producers.

use pdfrip_engine::errors::CrackError;
use pdfrip_engine::producers::custom_query::CustomQuery;
use pdfrip_engine::producers::dates::{Date, DateProducer};
use pdfrip_engine::producers::default_query::DefaultQuery;
use pdfrip_engine::producers::dictionary::LineProducer;
use pdfrip_engine::producers::number_ranges::RangeProducer;

fn drain_range(mut p: RangeProducer) -> Vec<Vec<u8>> {
    let mut out = Vec::new();
    while let Some(c) = p.next() {
        out.push(c);
    }
    assert!(p.next().is_none());
    assert!(p.next().is_none());
    out
}

#[test]
fn range_one_to_fifteen_in_order() {
    let p = RangeProducer::new(1, 15, false).unwrap();
    let got = drain_range(p);
    let want: Vec<Vec<u8>> = (1..=15u64).map(|n| n.to_string().into_bytes()).collect();
    assert_eq!(got, want);
}

#[test]
fn range_zero_with_padding() {
    let p = RangeProducer::new(0, 0, true).unwrap();
    let got = drain_range(p);
    assert_eq!(got, vec![b"0".to_vec()]);
}

#[test]
fn range_inverted_bounds_rejected() {
    match RangeProducer::new(5, 1, false) {
        Err(e) => assert_eq!(e, CrackError::InvalidRangeError),
        Ok(_) => panic!("bounds out of order must be rejected"),
    }
}

#[test]
fn range_padded_to_upper_width() {
    let p = RangeProducer::new(8, 12, true).unwrap();
    let got = drain_range(p);
    let want = vec![
        b"08".to_vec(),
        b"09".to_vec(),
        b"10".to_vec(),
        b"11".to_vec(),
        b"12".to_vec(),
    ];
    assert_eq!(got, want);
}

#[test]
fn brute_force_two_letter_alphabet() {
    let mut p = DefaultQuery::new(vec![b'a', b'b'], 1, 2).unwrap();
    let mut got = Vec::new();
    while let Some(c) = p.next() {
        got.push(c);
    }
    assert!(p.next().is_none());
    let want = vec![
        b"a".to_vec(),
        b"b".to_vec(),
        b"aa".to_vec(),
        b"ab".to_vec(),
        b"ba".to_vec(),
        b"bb".to_vec(),
    ];
    assert_eq!(got, want);
}

#[test]
fn brute_force_bad_configuration_rejected() {
    match DefaultQuery::new(vec![b'a'], 3, 2) {
        Err(e) => assert_eq!(e, CrackError::InvalidRangeError),
        Ok(_) => panic!("min above max must be rejected"),
    }
    match DefaultQuery::new(Vec::new(), 0, 2) {
        Err(e) => assert_eq!(e, CrackError::InvalidRangeError),
        Ok(_) => panic!("an empty alphabet with minimum length zero must be rejected"),
    }
}

#[test]
fn brute_force_empty_alphabet_with_positive_minimum_is_empty() {
    let mut p = DefaultQuery::new(Vec::new(), 1, 3).unwrap();
    assert_eq!(p.next(), None);
    assert_eq!(p.next(), None);
}

#[test]
fn custom_query_two_digit_wildcards() {
    let mut p = CustomQuery::new(b"?d?d", false).unwrap();
    let mut got = Vec::new();
    while let Some(c) = p.next() {
        got.push(c);
    }
    assert!(p.next().is_none());
    assert_eq!(got.len(), 100);
    let want: Vec<Vec<u8>> = (0..100u32).map(|n| format!("{:02}", n).into_bytes()).collect();
    assert_eq!(got, want);
}

#[test]
fn custom_query_literals_and_escape() {
    let mut p = CustomQuery::new(b"a??b?d", false).unwrap();
    let mut got = Vec::new();
    while let Some(c) = p.next() {
        got.push(c);
    }
    let want: Vec<Vec<u8>> = (0..10u32).map(|n| format!("a?b{}", n).into_bytes()).collect();
    assert_eq!(got, want);
}

#[test]
fn custom_query_bad_templates_rejected() {
    match CustomQuery::new(b"?x", false) {
        Err(e) => assert_eq!(e, CrackError::InvalidTemplateError),
        Ok(_) => panic!("unknown wildcard token must be rejected"),
    }
    match CustomQuery::new(b"ab?", false) {
        Err(e) => assert_eq!(e, CrackError::InvalidTemplateError),
        Ok(_) => panic!("unfinished escape must be rejected"),
    }
}

#[test]
fn dictionary_three_lines_then_stable_exhaustion() {
    let mut p = LineProducer::from_bytes(b"alpha\nbeta\ngamma\n");
    assert_eq!(p.next(), Some(b"alpha".to_vec()));
    assert_eq!(p.next(), Some(b"beta".to_vec()));
    assert_eq!(p.next(), Some(b"gamma".to_vec()));
    assert_eq!(p.next(), None);
    assert_eq!(p.next(), None);
    assert_eq!(p.next(), None);
}

#[test]
fn dictionary_crlf_and_unterminated_line() {
    let mut p = LineProducer::from_bytes(b"one\r\ntwo");
    assert_eq!(p.next(), Some(b"one".to_vec()));
    assert_eq!(p.next(), Some(b"two".to_vec()));
    assert_eq!(p.next(), None);
}

#[test]
fn dates_span_a_month_boundary() {
    let start = Date { year: 2019, month: 2, day: 27 };
    let end = Date { year: 2019, month: 3, day: 1 };
    let mut p = DateProducer::new(start, end).unwrap();
    let mut got = Vec::new();
    while let Some(c) = p.next() {
        got.push(c);
    }
    assert!(p.next().is_none());
    let want = vec![
        b"27022019".to_vec(),
        b"20190227".to_vec(),
        b"28022019".to_vec(),
        b"20190228".to_vec(),
        b"01032019".to_vec(),
        b"20190301".to_vec(),
    ];
    assert_eq!(got, want);
}

#[test]
fn dates_know_leap_years() {
    let start = Date { year: 2020, month: 2, day: 28 };
    let end = Date { year: 2020, month: 3, day: 1 };
    let mut p = DateProducer::new(start, end).unwrap();
    let mut got = Vec::new();
    while let Some(c) = p.next() {
        got.push(c);
    }
    let want = vec![
        b"28022020".to_vec(),
        b"20200228".to_vec(),
        b"29022020".to_vec(),
        b"20200229".to_vec(),
        b"01032020".to_vec(),
        b"20200301".to_vec(),
    ];
    assert_eq!(got, want);
}

#[test]
fn dates_bad_intervals_rejected() {
    let a = Date { year: 2020, month: 3, day: 1 };
    let b = Date { year: 2020, month: 2, day: 28 };
    match DateProducer::new(a, b) {
        Err(e) => assert_eq!(e, CrackError::InvalidRangeError),
        Ok(_) => panic!("bounds out of order must be rejected"),
    }
    let bad = Date { year: 2021, month: 2, day: 30 };
    match DateProducer::new(bad, a) {
        Err(e) => assert_eq!(e, CrackError::InvalidRangeError),
        Ok(_) => panic!("an impossible date must be rejected"),
    }
}

#[test]
fn error_messages_name_each_failure() {
    assert!(!CrackError::IOError.message().is_empty());
    assert!(!CrackError::ParseError.message().is_empty());
    assert!(!CrackError::UnsupportedFormatError.message().is_empty());
    assert!(!CrackError::InvalidRangeError.message().is_empty());
    assert!(!CrackError::InvalidTemplateError.message().is_empty());
    assert!(!CrackError::InvalidConfigError.message().is_empty());
}

#[test]
fn custom_query_empty_template_is_one_empty_candidate() {
    let mut p = CustomQuery::new(b"", false).unwrap();
    assert_eq!(p.next(), Some(Vec::new()));
    assert_eq!(p.next(), None);
    assert_eq!(p.next(), None);
}

#[test]
fn brute_force_zero_length_starts_with_the_empty_string() {
    let mut p = DefaultQuery::new(vec![b'z'], 0, 1).unwrap();
    assert_eq!(p.next(), Some(Vec::new()));
    assert_eq!(p.next(), Some(b"z".to_vec()));
    assert_eq!(p.next(), None);
}

#[test]
fn single_date_emits_both_renderings() {
    let d = Date { year: 2001, month: 1, day: 9 };
    let mut p = DateProducer::new(d, d).unwrap();
    assert_eq!(p.next(), Some(b"09012001".to_vec()));
    assert_eq!(p.next(), Some(b"20010109".to_vec()));
    assert_eq!(p.next(), None);
    assert_eq!(p.next(), None);
}
