use std::io::Read;

use wsrelay::compress::{gunzip_maybe, gzip_maybe, outcome_or_unchanged};
use wsrelay::name_map::NameMap;
use wsrelay::text::{decimal_text, parse_u32, parse_u64};

#[test]
fn numbers_are_written_and_read_back() {
    for n in [0u64, 9, 10, 99, 100, 4_294_967_295, 4_294_967_296, u64::MAX] {
        assert_eq!(decimal_text(n), n.to_string());
        assert_eq!(parse_u64(&decimal_text(n)), Some(n));
    }
}

#[test]
fn numbers_are_parsed_as_the_standard_parser_does() {
    for text in [
        "", "+", "-", "-1", "+7", "007", "12a", " 12", "12 ", "4294967295", "4294967296",
        "18446744073709551615", "18446744073709551616", "99999999999999999999999", "\u{664}",
    ] {
        assert_eq!(parse_u64(text), text.parse::<u64>().ok(), "{:?}", text);
        assert_eq!(parse_u32(text), text.parse::<u32>().ok(), "{:?}", text);
    }
}

#[test]
fn compression_is_undone() {
    let data: Vec<u8> = (0..2000u32).map(|i| (i % 7) as u8).collect();
    let packed = gzip_maybe(&data);
    assert_ne!(packed, data);
    assert!(packed.len() < data.len());
    assert_eq!(&packed[..2], &[0x1f, 0x8b]);
    assert_eq!(gunzip_maybe(&packed), data);
    let mut plain = Vec::new();
    flate2::read::GzDecoder::new(&packed[..]).read_to_end(&mut plain).unwrap();
    assert_eq!(plain, data);
}

#[test]
fn what_is_not_compressed_stays_as_it_is() {
    assert_eq!(gunzip_maybe(b"not gzip"), b"not gzip".to_vec());
    assert_eq!(gunzip_maybe(b""), Vec::<u8>::new());
    let mut packed = gzip_maybe(b"hello hello hello");
    packed.truncate(packed.len() - 4);
    assert_eq!(gunzip_maybe(&packed), packed);
}

#[test]
fn failed_outcomes_leave_the_data() {
    assert_eq!(outcome_or_unchanged(None, b"x"), b"x".to_vec());
    assert_eq!(outcome_or_unchanged(Some(vec![1]), b"x"), vec![1]);
}

#[test]
fn name_maps_hold_one_value_for_each_name() {
    let mut m: NameMap<u32> = NameMap::new();
    assert!(!m.contains_key("a"));
    m.insert("a".to_string(), 1);
    m.insert("b".to_string(), 2);
    m.insert("a".to_string(), 3);
    assert_eq!(m.get("a"), Some(&3));
    assert_eq!(m.get("b"), Some(&2));
    assert_eq!(m.remove("a"), Some(3));
    assert_eq!(m.remove("a"), None);
    assert_eq!(m.get("b"), Some(&2));
    assert_eq!(m.get("a"), None);
}
