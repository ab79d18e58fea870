use code_search::code::{code_digits, format_code, CODE_SPACE};
use code_search::error::SearchError;
use code_search::search::{bruteforce_code, candidate_checksum, search, search_range};
use sha2::{Digest, Sha256};

const V1: &str = "E3 EE B0 95 58 C9 6E 6C 45 63 CE 73 91 4C 32 F7 D2 EA 51 54 62 7A DF 3C 4B 86 A4 17 D7 F5 D0 C8";
const V2: &str = "B4 C0 E2 90 95 87 6F F6 05 10 C4 34 C0 1C 4C A4 CE 41 EB 20 57 77 33 EA 87 DC C4 79 E3 CE F5 3C";
const RESULT: &str = "97979686";

fn sample_suffix() -> Vec<u8> {
    (0u8..32).map(|i| i.wrapping_mul(37).wrapping_add(11)).collect()
}

#[test]
fn bruteforce() {
    assert_eq!(bruteforce_code(V1, V2).unwrap_or_default(), RESULT);
}

#[test]
fn reference_checksum_matches_reference_code() {
    let target = code_search::hex::decode_hex(V1).unwrap();
    let suffix = code_search::hex::decode_hex(V2).unwrap();
    assert_eq!(candidate_checksum(97979686, &suffix), target);
    assert_ne!(candidate_checksum(97979685, &suffix), target);
}

#[test]
fn candidate_checksum_is_two_stage_sha256() {
    let suffix = sample_suffix();
    let first = Sha256::digest(b"00000042");
    let mut block = first.to_vec();
    block.extend_from_slice(&suffix);
    let expected = Sha256::digest(&block).to_vec();
    assert_eq!(candidate_checksum(42, &suffix), expected);
    assert_eq!(candidate_checksum(42, &suffix).len(), 32);
}

#[test]
fn highest_code_is_found_first() {
    let suffix = sample_suffix();
    let target = candidate_checksum(99_999_999, &suffix);
    assert_eq!(search(&target, &suffix), Ok("99999999".to_string()));
}

#[test]
fn lowest_code_is_reachable() {
    let suffix = sample_suffix();
    let target = candidate_checksum(0, &suffix);
    assert_eq!(search_range(&target, &suffix, 0, 10), Some(0));
    assert_eq!(format_code(0), "00000000");
}

#[test]
fn constructed_code_is_found_in_its_range() {
    let suffix = sample_suffix();
    let target = candidate_checksum(12_345_678, &suffix);
    assert_eq!(search_range(&target, &suffix, 12_345_600, 12_345_700), Some(12_345_678));
    assert_eq!(search_range(&target, &suffix, 12_345_600, 12_345_678), None);
    assert_eq!(search_range(&target, &suffix, 12_345_679, 12_345_700), None);
}

#[test]
fn constructed_code_is_found_by_hex_entry_point() {
    let suffix = sample_suffix();
    let target = candidate_checksum(99_999_990, &suffix);
    let target_hex = code_search::hex::encode_hex(&target);
    let suffix_hex = code_search::hex::encode_hex(&suffix);
    assert_eq!(bruteforce_code(&target_hex, &suffix_hex), Ok("99999990".to_string()));
}

#[test]
fn unreachable_target_is_not_found_in_range() {
    let suffix = sample_suffix();
    let target = vec![0u8; 32];
    assert_eq!(search_range(&target, &suffix, 0, 1000), None);
    assert_eq!(search_range(&target, &suffix, 5, 5), None);
}

#[test]
fn wrong_lengths_are_rejected() {
    let suffix = sample_suffix();
    assert_eq!(search(&[0u8; 31], &suffix), Err(SearchError::InvalidInputLength));
    assert_eq!(search(&[0u8; 32], &suffix[..16]), Err(SearchError::InvalidInputLength));
    assert_eq!(bruteforce_code("00 11", V2), Err(SearchError::InvalidInputLength));
}

#[test]
fn malformed_hex_is_reported_before_searching() {
    assert_eq!(bruteforce_code("", V2), Err(SearchError::MalformedHex { position: 0 }));
    assert_eq!(bruteforce_code(V1, "ABC"), Err(SearchError::MalformedHex { position: 3 }));
    assert_eq!(bruteforce_code("0x11", V2), Err(SearchError::MalformedHex { position: 1 }));
}

#[test]
fn codes_are_zero_padded() {
    assert_eq!(code_digits(42), *b"00000042");
    assert_eq!(code_digits(0), *b"00000000");
    assert_eq!(code_digits(CODE_SPACE - 1), *b"99999999");
    assert_eq!(format_code(42), "00000042");
    assert_eq!(format_code(99_999_999), "99999999");
    assert_eq!(format_code(97_979_686), "97979686");
}
