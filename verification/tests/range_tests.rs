use studymood::range::{plan_range, range_would_overflow, RangePlan};

fn plan(header: Option<&str>, size: u64) -> RangePlan {
    plan_range(header.map(|h| h.as_bytes()), size)
}

fn partial(p: RangePlan) -> (u64, u64, String) {
    match p {
        RangePlan::Partial { start, length, content_range } => (start, length, content_range),
        _ => panic!("expected a partial answer"),
    }
}

#[test]
fn no_header_sends_whole_file() {
    assert!(matches!(plan(None, 100), RangePlan::Whole));
}

#[test]
fn simple_range() {
    assert_eq!(partial(plan(Some("bytes=0-99"), 1000)), (0, 100, "bytes 0-99/1000".to_string()));
    assert_eq!(partial(plan(Some("bytes=10-19"), 1000)), (10, 10, "bytes 10-19/1000".to_string()));
}

#[test]
fn open_ended_range_runs_to_end() {
    assert_eq!(partial(plan(Some("bytes=500-"), 1000)), (500, 500, "bytes 500-999/1000".to_string()));
}

#[test]
fn missing_start_reads_as_zero() {
    assert_eq!(partial(plan(Some("bytes=-500"), 1000)), (0, 501, "bytes 0-500/1000".to_string()));
}

#[test]
fn end_past_file_is_clipped() {
    assert_eq!(partial(plan(Some("bytes=900-5000"), 1000)), (900, 100, "bytes 900-999/1000".to_string()));
}

#[test]
fn start_past_end_of_file_is_unsatisfiable() {
    match plan(Some("bytes=1000-"), 1000) {
        RangePlan::NotSatisfiable { content_range } => assert_eq!(content_range, "bytes */1000"),
        _ => panic!("expected 416"),
    }
}

#[test]
fn start_after_end_is_unsatisfiable() {
    match plan(Some("bytes=50-10"), 1000) {
        RangePlan::NotSatisfiable { content_range } => assert_eq!(content_range, "bytes */1000"),
        _ => panic!("expected 416"),
    }
}

#[test]
fn other_units_or_shapes_send_whole_file() {
    assert!(matches!(plan(Some("items=0-10"), 1000), RangePlan::Whole));
    assert!(matches!(plan(Some("bytes=0-10-20"), 1000), RangePlan::Whole));
    assert!(matches!(plan(Some("bytes=0-10,20-30"), 1000), RangePlan::Whole));
    assert!(matches!(plan(Some("bytes=10"), 1000), RangePlan::Whole));
}

#[test]
fn non_text_header_is_bad_request() {
    assert!(matches!(plan_range(Some(&[98, 121, 116, 101, 115, 61, 0xff]), 10), RangePlan::InvalidHeader));
    assert!(matches!(plan_range(Some(b"bytes=0-1\n"), 10), RangePlan::InvalidHeader));
}

#[test]
fn tab_counts_as_text() {
    // A tab in the header is visible ASCII; the piece "0\t" is not a number, so it reads as 0.
    assert_eq!(partial(plan(Some("bytes=0\t-4"), 10)), (0, 5, "bytes 0-4/10".to_string()));
}

#[test]
fn overflowing_inputs_are_detected() {
    assert!(range_would_overflow(Some(b"bytes=0-5"), 0));
    assert!(range_would_overflow(Some(b"bytes=0-18446744073709551615"), 10));
    assert!(!range_would_overflow(Some(b"bytes=1-18446744073709551615"), 10));
    assert!(!range_would_overflow(Some(b"bytes=0-5"), 10));
    assert!(!range_would_overflow(None, 0));
    assert!(!range_would_overflow(Some(b"items=0-5"), 0));
}

#[test]
fn unsatisfiable_on_empty_file_without_pieces() {
    assert!(matches!(plan(Some("bytes=5"), 0), RangePlan::Whole));
}
