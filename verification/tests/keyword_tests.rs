use pescan::keywords::parse_keywords;
use pescan::patterns::PatternSet;

#[test]
fn keywords_one_per_line() {
    let kws = parse_keywords(b"alpha\nbeta\ngamma");
    assert_eq!(kws, vec![b"alpha".to_vec(), b"beta".to_vec(), b"gamma".to_vec()]);
}

#[test]
fn keywords_crlf_terminators_stripped() {
    let kws = parse_keywords(b"alpha\r\nbeta\r\n");
    assert_eq!(kws, vec![b"alpha".to_vec(), b"beta".to_vec()]);
}

#[test]
fn keywords_empty_lines_skipped() {
    assert_eq!(parse_keywords(b""), Vec::<Vec<u8>>::new());
    assert_eq!(parse_keywords(b"\n\n\r\n"), Vec::<Vec<u8>>::new());
    assert_eq!(parse_keywords(b"\n\na\n\n"), vec![b"a".to_vec()]);
}

#[test]
fn keywords_order_preserved() {
    let kws = parse_keywords(b"zz\naa\nmm");
    assert_eq!(kws, vec![b"zz".to_vec(), b"aa".to_vec(), b"mm".to_vec()]);
}

#[test]
fn keyword_inner_carriage_return_kept() {
    // Only a trailing carriage return is a terminator.
    let kws = parse_keywords(b"a\rb\nc");
    assert_eq!(kws, vec![b"a\rb".to_vec(), b"c".to_vec()]);
}

#[test]
fn pattern_set_rejects_empty_and_duplicates() {
    let mut set = PatternSet::new();
    assert!(set.insert(b"aa".to_vec()));
    assert!(!set.insert(b"".to_vec()));
    assert!(!set.insert(b"aa".to_vec()));
    assert!(set.insert(b"ab".to_vec()));
    assert_eq!(set.len(), 2);
    assert_eq!(set.pattern(0), &b"aa".to_vec());
    assert_eq!(set.pattern(1), &b"ab".to_vec());
}

#[test]
fn search_all_orders_by_pattern_then_offset() {
    let mut set = PatternSet::new();
    assert!(set.insert(b"ab".to_vec()));
    assert!(set.insert(b"b".to_vec()));
    let pairs = set.search_all(b"abab", 101);
    assert_eq!(pairs, vec![(0, 0), (0, 2), (1, 1), (1, 3)]);
}

#[test]
fn search_all_from_parsed_keywords() {
    let mut set = PatternSet::new();
    for kw in parse_keywords(b"needle\nhay\n") {
        assert!(set.insert(kw));
    }
    let pairs = set.search_all(b"hayhayneedlehay", 101);
    assert_eq!(pairs, vec![(0, 6), (1, 0), (1, 3), (1, 12)]);
}
