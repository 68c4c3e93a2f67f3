use bindle_store::digest::{check_digest, lower_hex, validate_sha256, AsyncSha256, MAX_HASHED};
use bindle_store::error::ProviderError;

const EMPTY: &str = "e3b0c44298fc1c149afbf4c8996fb92427ae41e4649b934ca495991b7852b855";
const ABC: &str = "ba7816bf8f01cfea414140de5dae2223b00361a396177a9cb410ff61f20015ad";

#[test]
fn hex_has_two_lower_case_digits_for_each_byte() {
    assert_eq!("", lower_hex(&[]));
    assert_eq!("00010f10ff", lower_hex(&[0, 1, 15, 16, 255]));
    let all: Vec<u8> = (0..=255).collect();
    let expected: String = all.iter().map(|b| format!("{:02x}", b)).collect();
    assert_eq!(expected, lower_hex(&all));
}

#[test]
fn different_bytes_are_written_differently() {
    let mut seen: Vec<String> = (0..=255u8).map(|b| lower_hex(&[b])).collect();
    seen.sort();
    seen.dedup();
    assert_eq!(256, seen.len());
    assert!(seen.iter().all(|s| !s.contains('/')));
}

#[test]
fn digest_of_nothing() {
    let digest = AsyncSha256::new().finalize();
    assert_eq!(32, digest.len());
    assert_eq!(EMPTY, lower_hex(&digest));
}

#[test]
fn digest_of_pieces_is_the_digest_of_the_whole() {
    let mut hasher = AsyncSha256::new();
    assert_eq!(1, hasher.write(b"a"));
    assert_eq!(0, hasher.write(b""));
    assert_eq!(2, hasher.write(b"bc"));
    assert_eq!(ABC, lower_hex(&hasher.finalize()));
}

#[test]
fn room_is_what_is_left_of_the_limit() {
    let mut hasher = AsyncSha256::new();
    assert!(hasher.has_room(MAX_HASHED as usize));
    assert!(!hasher.has_room(MAX_HASHED as usize + 1));
    hasher.write(b"abc");
    assert!(hasher.has_room(MAX_HASHED as usize - 3));
    assert!(!hasher.has_room(MAX_HASHED as usize - 2));
    assert!(!hasher.has_room(usize::MAX));
}

#[test]
fn validation_goes_by_the_lower_case_digest() {
    let hashed = |data: &[u8]| {
        let mut hasher = AsyncSha256::new();
        hasher.write(data);
        hasher
    };
    assert!(validate_sha256(hashed(b"abc"), ABC).is_ok());
    for wrong in [EMPTY, "", "abc", &ABC.to_uppercase(), &ABC[..63]] {
        assert!(matches!(
            validate_sha256(hashed(b"abc"), wrong),
            Err(ProviderError::DigestMismatch)
        ));
    }
}

#[test]
fn a_digest_is_held_against_its_text() {
    assert!(check_digest(&[0xab, 0x01], "ab01").is_ok());
    assert!(matches!(check_digest(&[0xab, 0x01], "AB01"), Err(ProviderError::DigestMismatch)));
    assert!(check_digest(&[], "").is_ok());
}
