use hashassin::password::{PasswordGenerator, PasswordGeneratorBuilder, PasswordGeneratorError};
use hashassin::pipeline::{split_digests, CollectError, ResultCollector};
use hashassin::request::{parse_crack_request, RequestError};

#[test]
fn collector_restores_input_order() {
    let mut c = ResultCollector::new(3);
    assert_eq!(c.record(1, "one".to_string()), Ok(()));
    assert!(c.take_ready().is_empty());
    assert_eq!(c.record(0, "zero".to_string()), Ok(()));
    assert_eq!(c.take_ready(), vec!["zero".to_string(), "one".to_string()]);
    assert!(!c.is_complete());
    assert_eq!(c.record(2, "two".to_string()), Ok(()));
    assert!(c.is_complete());
    assert_eq!(c.take_ready(), vec!["two".to_string()]);
    assert!(c.take_ready().is_empty());
}

#[test]
fn collector_counts_every_item_once() {
    for n in 1..6usize {
        let mut c = ResultCollector::new(n);
        for i in (0..n).rev() {
            assert_eq!(c.record(i, format!("r{}", i)), Ok(()));
        }
        assert_eq!(c.received(), n);
        assert!(c.is_complete());
        let out = c.take_ready();
        assert_eq!(out.len(), n);
        for (i, r) in out.iter().enumerate() {
            assert_eq!(r, &format!("r{}", i));
        }
    }
}

#[test]
fn collector_refuses_bad_indices() {
    let mut c = ResultCollector::new(2);
    assert_eq!(c.record(2, "x".to_string()), Err(CollectError::OutOfRange));
    assert_eq!(c.record(0, "x".to_string()), Ok(()));
    assert_eq!(c.record(0, "y".to_string()), Err(CollectError::Duplicate));
    assert_eq!(c.received(), 1);
}

#[test]
fn empty_batch_is_complete() {
    let mut c = ResultCollector::new(0);
    assert!(c.is_complete());
    assert!(c.take_ready().is_empty());
}

#[test]
fn split_digests_ignores_partial_tail() {
    let bytes: Vec<u8> = (0..35u8).collect();
    let ds = split_digests(&bytes);
    assert_eq!(ds.len(), 2);
    assert_eq!(ds[0][0], 0);
    assert_eq!(ds[1][0], 16);
    assert_eq!(ds[1][15], 31);
    assert!(split_digests(&vec![1u8; 15]).is_empty());
}

#[test]
fn builder_defaults() {
    let g = PasswordGeneratorBuilder::default().build().unwrap();
    let p = g.generate();
    assert_eq!(p.chars().count(), 4);
    assert!(p.chars().all(|c| c.is_ascii_lowercase()));
}

#[test]
fn builder_rejects_min_above_max() {
    let r = PasswordGeneratorBuilder::default().with_min_char(Some(5)).build();
    assert_eq!(r.err(), Some(PasswordGeneratorError::MinMax { min: 5, max: 4 }));
    let r = PasswordGeneratorBuilder::default().with_max_char(Some(2)).build();
    assert_eq!(r.err(), Some(PasswordGeneratorError::MinMax { min: 4, max: 2 }));
}

#[test]
fn builder_rejects_zero_and_bad_radix() {
    let r = PasswordGeneratorBuilder::default().with_min_char(Some(0)).build();
    assert_eq!(r.err(), Some(PasswordGeneratorError::ZeroLength));
    let r = PasswordGeneratorBuilder::default().with_radix(Some(27)).build();
    assert_eq!(r.err(), Some(PasswordGeneratorError::RadixOutOfRange));
}

#[test]
fn generated_passwords_respect_bounds() {
    let g = PasswordGeneratorBuilder::default()
        .with_min_char(Some(2))
        .with_max_char(Some(6))
        .with_radix(Some(3))
        .build()
        .unwrap();
    for _ in 0..200 {
        let p = g.generate();
        let n = p.chars().count();
        assert!((2..=6).contains(&n));
        assert!(p.chars().all(|c| ('a'..='c').contains(&c)));
    }
    let d = PasswordGenerator::default().generate();
    assert_eq!(d.len(), 4);
}

#[test]
fn crack_request_parses_digest() {
    let d = parse_crack_request("crack 900150983CD24FB0d6963f7d28e17f72\r\n").unwrap();
    assert_eq!(d[0], 0x90);
    assert_eq!(d[4], 0x3c);
    assert_eq!(d[15], 0x72);
}

#[test]
fn crack_request_errors() {
    assert_eq!(parse_crack_request("hello"), Err(RequestError::NotACrackCommand));
    assert_eq!(parse_crack_request("crack zz"), Err(RequestError::BadHex));
    assert_eq!(parse_crack_request("crack abc"), Err(RequestError::BadHex));
    assert_eq!(parse_crack_request("crack abcd\n"), Err(RequestError::WrongLength));
    assert_eq!(parse_crack_request("crack "), Err(RequestError::WrongLength));
}
