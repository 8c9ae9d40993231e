use ntfs_extract::cipher::{CipherState, NONCE_LEN, TAG_LEN};
use ntfs_extract::encrypted::{decrypt_stream, encrypt_stream, SEALED_CHUNK};
use ntfs_extract::error::ExtractError;
use ntfs_extract::stream::{StreamKind, CHUNK_SIZE};
use ntfs_extract::timestamp::{
    add_timezone_offset_to_system_time, local_modification_time, modification_time, nt_timestamp_to_system_time,
    UnixTime,
};
use ntfs_extract::vdl::{decode_valid_data_length, valid_data_length_position, AttributeType};

fn pattern_chunk(seed: u8, len: usize) -> Vec<u8> {
    (0..len).map(|i| (i as u8).wrapping_mul(13).wrapping_add(seed) | 1).collect()
}

#[test]
fn key_is_sha256_of_password() {
    let c = CipherState::new("abc").unwrap();
    let expected: Vec<u8> = vec![
        0xba, 0x78, 0x16, 0xbf, 0x8f, 0x01, 0xcf, 0xea, 0x41, 0x41, 0x40, 0xde, 0x5d, 0xae, 0x22, 0x23, 0xb0,
        0x03, 0x61, 0xa3, 0x96, 0x17, 0x7a, 0x9c, 0xb4, 0x10, 0xff, 0x61, 0xf2, 0x00, 0x15, 0xad,
    ];
    assert_eq!(c.key, expected);
    assert_eq!(c.nonce.len(), NONCE_LEN);
}

#[test]
fn encryption_round_trip() {
    let cipher = CipherState::new("correct horse").unwrap();
    let chunks = vec![pattern_chunk(1, CHUNK_SIZE), pattern_chunk(2, CHUNK_SIZE), pattern_chunk(3, 77)];
    let out = encrypt_stream(&cipher, StreamKind::Whole, &chunks).unwrap();
    assert!(out.slack.is_none());
    assert_eq!(&out.primary[..NONCE_LEN], &cipher.nonce[..]);
    assert_eq!(out.primary.len(), NONCE_LEN + 2 * SEALED_CHUNK + 77 + TAG_LEN);
    assert_ne!(&out.primary[NONCE_LEN..NONCE_LEN + CHUNK_SIZE], &chunks[0][..]);
    let plain = decrypt_stream(&cipher.key, &out.primary).unwrap();
    assert_eq!(plain, chunks.concat());
}

#[test]
fn decryption_refuses_wrong_key_or_short_input() {
    let cipher = CipherState::new("one").unwrap();
    let chunks = vec![pattern_chunk(5, 300)];
    let out = encrypt_stream(&cipher, StreamKind::Whole, &chunks).unwrap();
    let other = CipherState::new("two").unwrap();
    assert!(decrypt_stream(&other.key, &out.primary).is_none());
    assert!(decrypt_stream(&cipher.key, &out.primary[..5]).is_none());
}

#[test]
fn encrypted_alternate_stream_skips_zero_chunk() {
    let cipher = CipherState::new("pw").unwrap();
    let second = pattern_chunk(9, CHUNK_SIZE);
    let chunks = vec![vec![0u8; CHUNK_SIZE], second.clone()];
    let out = encrypt_stream(&cipher, StreamKind::Alternate, &chunks).unwrap();
    assert_eq!(out.primary.len(), NONCE_LEN + SEALED_CHUNK);
    assert_eq!(decrypt_stream(&cipher.key, &out.primary).unwrap(), second);
}

#[test]
fn encrypted_bounded_stream_keeps_slack_plain() {
    let cipher = CipherState::with_nonce(vec![7u8; 32], vec![1u8; 12]);
    let chunks = vec![pattern_chunk(1, CHUNK_SIZE), pattern_chunk(2, CHUNK_SIZE)];
    let vdl = (CHUNK_SIZE + 10) as u64;
    let out = encrypt_stream(&cipher, StreamKind::Bounded { valid_length: vdl }, &chunks).unwrap();
    assert_eq!(out.slack.unwrap(), chunks[1][10..].to_vec());
    assert_eq!(out.primary.len(), NONCE_LEN + SEALED_CHUNK + 10 + TAG_LEN + (CHUNK_SIZE - 10));
    assert!(out.primary[out.primary.len() - (CHUNK_SIZE - 10)..].iter().all(|&b| b == 0));
}

#[test]
fn valid_data_length_is_little_endian_at_56() {
    let mut record = vec![0xffu8; 64];
    record[56] = 0x78;
    record[57] = 0x56;
    record[58] = 0x34;
    record[59] = 0x12;
    assert_eq!(decode_valid_data_length(&record), Ok(0x12345678));
    assert_eq!(decode_valid_data_length(&record[..60]), Err(ExtractError::Read));
}

#[test]
fn valid_data_length_position_errors() {
    assert_eq!(valid_data_length_position(AttributeType::Data, Some(4096)), Ok(4096));
    assert_eq!(valid_data_length_position(AttributeType::Data, None), Err(ExtractError::VdlUnavailable));
    assert_eq!(
        valid_data_length_position(AttributeType::IndexAllocation, Some(1)),
        Err(ExtractError::WrongAttributeType)
    );
    assert_eq!(valid_data_length_position(AttributeType::Other, None), Err(ExtractError::WrongAttributeType));
}

#[test]
fn nt_timestamps_convert_to_unix_time() {
    assert_eq!(nt_timestamp_to_system_time(116444736000000000), UnixTime { secs: 0, nanos: 0 });
    assert_eq!(nt_timestamp_to_system_time(116444736000000001), UnixTime { secs: 0, nanos: 100 });
    assert_eq!(nt_timestamp_to_system_time(0), UnixTime { secs: -11644473600, nanos: 0 });
    assert_eq!(
        nt_timestamp_to_system_time(133_000_000_012_345_678),
        UnixTime { secs: 1655526401, nanos: 234_567_800 }
    );
}

#[test]
fn timezone_offset_is_added() {
    let t = UnixTime { secs: 100, nanos: 5 };
    assert_eq!(add_timezone_offset_to_system_time(t, 3600), UnixTime { secs: 3700, nanos: 5 });
    assert_eq!(add_timezone_offset_to_system_time(t, -200), UnixTime { secs: -100, nanos: 5 });
    assert_eq!(local_modification_time(116444736000000000, -18000), UnixTime { secs: -18000, nanos: 0 });
}

#[test]
fn modification_time_is_within_a_day() {
    let nt = 133_000_000_000_000_000u64;
    let base = nt_timestamp_to_system_time(nt);
    let m = modification_time(nt).unwrap();
    assert_eq!(m.nanos, base.nanos);
    assert!((m.secs - base.secs).abs() < 86400);
}
