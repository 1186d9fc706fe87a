use feeds2::checkpoint::{
    format_supplement_checkpoint, is_supplement_checkpoint, parse_supplement_checkpoint,
};

#[test]
fn parses_supplement_checkpoint() {
    assert_eq!(
        parse_supplement_checkpoint("feeds2:offset=1906"),
        Some(1906)
    );
    assert!(parse_supplement_checkpoint("att=foo").is_none());
}

#[test]
fn formats_supplement_checkpoint() {
    assert_eq!(format_supplement_checkpoint(0), "feeds2:offset=0");
    assert_eq!(format_supplement_checkpoint(1906), "feeds2:offset=1906");
    assert_eq!(
        format_supplement_checkpoint(i64::MIN),
        "feeds2:offset=-9223372036854775808"
    );
}

#[test]
fn checkpoint_reads_back() {
    for offset in [0, 1, 9, 10, 25_000, 150_000, i64::MAX] {
        let cursor = format_supplement_checkpoint(offset);
        assert!(is_supplement_checkpoint(&cursor));
        assert_eq!(parse_supplement_checkpoint(&cursor), Some(offset));
    }
    for offset in [-1, -30, i64::MIN] {
        let cursor = format_supplement_checkpoint(offset);
        assert!(is_supplement_checkpoint(&cursor));
        assert_eq!(parse_supplement_checkpoint(&cursor), None);
    }
}

#[test]
fn checkpoint_follows_integer_notation() {
    assert_eq!(parse_supplement_checkpoint("feeds2:offset=+7"), Some(7));
    assert_eq!(parse_supplement_checkpoint("feeds2:offset=-0"), Some(0));
    assert_eq!(parse_supplement_checkpoint("feeds2:offset=0007"), Some(7));
    assert_eq!(parse_supplement_checkpoint("feeds2:offset="), None);
    assert_eq!(parse_supplement_checkpoint("feeds2:offset=+"), None);
    assert_eq!(parse_supplement_checkpoint("feeds2:offset=7 "), None);
    assert_eq!(parse_supplement_checkpoint("feeds2:offset=7a"), None);
    assert_eq!(
        parse_supplement_checkpoint("feeds2:offset=9223372036854775808"),
        None
    );
    assert_eq!(parse_supplement_checkpoint(" feeds2:offset=7"), None);
}

#[test]
fn recognises_checkpoints_by_their_prefix() {
    assert!(is_supplement_checkpoint("feeds2:offset="));
    assert!(is_supplement_checkpoint("feeds2:offset=x"));
    assert!(!is_supplement_checkpoint("feeds2:offset"));
    assert!(!is_supplement_checkpoint(""));
}
