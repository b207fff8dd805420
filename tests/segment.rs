use proof_viz::segment::{masked_bytes, ranges_are_valid, segment, Segment, SegmentError};

fn total_len(segments: &[Segment]) -> usize {
    segments
        .iter()
        .map(|s| match s {
            Segment::Disclosed(b) => b.len(),
            Segment::Redacted(n) => *n,
        })
        .sum()
}

#[test]
fn segments_tile_the_buffer() {
    let buf = b"GET /secret HTTP/1.1\r\nHost: x\r\n".to_vec();
    let ranges = vec![5..11, 22..26];
    let segs = segment(&buf, &ranges).unwrap();
    assert_eq!(total_len(&segs), buf.len());
    assert_eq!(
        segs,
        vec![
            Segment::Disclosed(b"GET /".to_vec()),
            Segment::Redacted(6),
            Segment::Disclosed(b" HTTP/1.1\r\n".to_vec()),
            Segment::Redacted(4),
            Segment::Disclosed(b": x\r\n".to_vec()),
        ]
    );
}

#[test]
fn one_redacted_segment_per_range_in_order() {
    let buf = vec![0u8; 20];
    let ranges = vec![0..2, 2..5, 10..20];
    let segs = segment(&buf, &ranges).unwrap();
    let lens: Vec<usize> = segs
        .iter()
        .filter_map(|s| match s {
            Segment::Redacted(n) => Some(*n),
            _ => None,
        })
        .collect();
    assert_eq!(lens, vec![2, 3, 10]);
    assert_eq!(
        segs,
        vec![
            Segment::Redacted(2),
            Segment::Redacted(3),
            Segment::Disclosed(vec![0u8; 5]),
            Segment::Redacted(10),
        ]
    );
}

#[test]
fn no_ranges_gives_whole_buffer() {
    let buf = b"hello".to_vec();
    assert_eq!(
        segment(&buf, &vec![]).unwrap(),
        vec![Segment::Disclosed(b"hello".to_vec())]
    );
}

#[test]
fn no_ranges_on_empty_buffer_gives_nothing() {
    let buf: Vec<u8> = Vec::new();
    assert_eq!(segment(&buf, &vec![]).unwrap(), Vec::<Segment>::new());
}

#[test]
fn whole_buffer_withheld() {
    let buf = b"abc".to_vec();
    assert_eq!(segment(&buf, &vec![0..3]).unwrap(), vec![Segment::Redacted(3)]);
}

#[test]
fn empty_range_is_invalid() {
    let buf = b"abcdef".to_vec();
    assert_eq!(segment(&buf, &vec![2..2]), Err(SegmentError::InvalidRanges));
    assert_eq!(segment(&buf, &vec![3..2]), Err(SegmentError::InvalidRanges));
}

#[test]
fn overlapping_ranges_are_invalid() {
    let buf = b"abcdef".to_vec();
    assert_eq!(segment(&buf, &vec![0..3, 2..4]), Err(SegmentError::InvalidRanges));
}

#[test]
fn unsorted_ranges_are_invalid() {
    let buf = b"abcdef".to_vec();
    assert_eq!(segment(&buf, &vec![4..5, 0..1]), Err(SegmentError::InvalidRanges));
}

#[test]
fn range_past_end_is_invalid() {
    let buf = b"abcdef".to_vec();
    assert_eq!(segment(&buf, &vec![4..7]), Err(SegmentError::InvalidRanges));
    assert!(!ranges_are_valid(&vec![4..7], 6));
    assert!(ranges_are_valid(&vec![4..6], 6));
}

#[test]
fn masked_bytes_hide_withheld_positions() {
    let buf = b"secret=42;ok".to_vec();
    let segs = segment(&buf, &vec![7..9]).unwrap();
    assert_eq!(masked_bytes(&segs, b'X'), b"secret=XX;ok".to_vec());
}

#[test]
fn withheld_content_does_not_change_output() {
    let a = b"id=1111;name=ann".to_vec();
    let b = b"id=9999;name=ann".to_vec();
    let ranges = vec![3..7];
    assert_eq!(segment(&a, &ranges), segment(&b, &ranges));
    let sa = segment(&a, &ranges).unwrap();
    let sb = segment(&b, &ranges).unwrap();
    assert_eq!(masked_bytes(&sa, 0), masked_bytes(&sb, 0));
}

#[test]
fn adjacent_ranges_stay_separate() {
    let buf = b"abcdef".to_vec();
    assert_eq!(
        segment(&buf, &vec![1..3, 3..4]).unwrap(),
        vec![
            Segment::Disclosed(b"a".to_vec()),
            Segment::Redacted(2),
            Segment::Redacted(1),
            Segment::Disclosed(b"ef".to_vec()),
        ]
    );
}
