use ntfs_extract::stream::{is_all_zero, split_stream, StreamKind, StreamSplitter, CHUNK_SIZE};

fn pattern_chunk(seed: u8) -> Vec<u8> {
    (0..CHUNK_SIZE).map(|i| (i as u8).wrapping_mul(7).wrapping_add(seed) | 1).collect()
}

#[test]
fn whole_stream_is_copied() {
    let chunks = vec![pattern_chunk(1), vec![9, 8, 7]];
    let out = split_stream(StreamKind::Whole, &chunks);
    assert_eq!(out.primary, chunks.concat());
    assert!(out.slack.is_none());
}

#[test]
fn bounded_stream_keeps_length() {
    let chunks = vec![pattern_chunk(1), pattern_chunk(2), vec![5; 100]];
    let total = 2 * CHUNK_SIZE + 100;
    for vdl in [0u64, 1, 4095, 4096, 5000, 8192, 8200, total as u64 - 1] {
        let out = split_stream(StreamKind::Bounded { valid_length: vdl }, &chunks);
        assert_eq!(out.primary.len(), total);
        let slack = out.slack.expect("slack past the valid length");
        assert_eq!(slack.len(), total - vdl as usize);
        assert_eq!(&slack[..], &chunks.concat()[vdl as usize..]);
    }
    for vdl in [total as u64, total as u64 + 1, u32::MAX as u64] {
        let out = split_stream(StreamKind::Bounded { valid_length: vdl }, &chunks);
        assert_eq!(out.primary, chunks.concat());
        assert!(out.slack.is_none());
    }
}

#[test]
fn bounded_stream_splits_at_exact_byte() {
    let chunks: Vec<Vec<u8>> = (0..4u8).map(pattern_chunk).collect();
    let k = 1usize;
    let r = 1000usize;
    let vdl = (k * CHUNK_SIZE + r) as u64;
    let out = split_stream(StreamKind::Bounded { valid_length: vdl }, &chunks);
    let primary_k = &out.primary[k * CHUNK_SIZE..(k + 1) * CHUNK_SIZE];
    assert_eq!(&primary_k[..r], &chunks[k][..r]);
    assert!(primary_k[r..].iter().all(|&b| b == 0));
    assert_eq!(&out.primary[..k * CHUNK_SIZE], &chunks[0][..]);
    assert!(out.primary[(k + 1) * CHUNK_SIZE..].iter().all(|&b| b == 0));
    let mut expected_slack = chunks[k][r..].to_vec();
    expected_slack.extend_from_slice(&chunks[2]);
    expected_slack.extend_from_slice(&chunks[3]);
    assert_eq!(out.slack.unwrap(), expected_slack);
}

#[test]
fn alternate_stream_never_has_slack() {
    let chunks = vec![pattern_chunk(3), vec![1, 2, 3]];
    let out = split_stream(StreamKind::Alternate, &chunks);
    assert!(out.slack.is_none());
    assert_eq!(out.primary, chunks.concat());
}

#[test]
fn alternate_stream_drops_zero_chunks() {
    let second = pattern_chunk(4);
    let chunks = vec![vec![0u8; CHUNK_SIZE], second.clone()];
    let out = split_stream(StreamKind::Alternate, &chunks);
    assert_eq!(out.primary, second);
    let out = split_stream(StreamKind::Whole, &chunks);
    assert_eq!(out.primary.len(), 2 * CHUNK_SIZE);
}

#[test]
fn splitter_routes_one_chunk() {
    let mut s = StreamSplitter::new(StreamKind::Bounded { valid_length: 10 });
    let first = s.split_chunk(&[1, 2, 3, 4, 5, 6]);
    assert_eq!(first.data, vec![1, 2, 3, 4, 5, 6]);
    assert_eq!(first.padding, 0);
    assert!(first.slack.is_empty());
    let second = s.split_chunk(&[7, 8, 9, 10, 11, 12]);
    assert_eq!(second.data, vec![7, 8, 9, 10]);
    assert_eq!(second.padding, 2);
    assert_eq!(second.slack, vec![11, 12]);
    let third = s.split_chunk(&[13]);
    assert!(third.data.is_empty());
    assert_eq!(third.padding, 1);
    assert_eq!(third.slack, vec![13]);
    assert_eq!(s.consumed, 13);
}

#[test]
fn zero_detection() {
    assert!(is_all_zero(&[0, 0, 0]));
    assert!(is_all_zero(&[]));
    assert!(!is_all_zero(&[0, 1, 0]));
}
