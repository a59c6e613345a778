use scwx::commands::update::{asset_name, checksum_asset_name, find_asset};
use scwx::commands::update::{
    decide_update, expected_sha256, hex, parse_version, target_triple, verify_binary,
    UpdateDecision, VerifyError,
};
use sha2::{Digest, Sha256};

#[test]
fn versions_parse_and_order() {
    assert_eq!(parse_version("v0.1.0"), Some([0, 1, 0]));
    assert_eq!(parse_version("1.12.3"), Some([1, 12, 3]));
    assert_eq!(parse_version("nightly"), None);
    assert!(parse_version("0.2.0") > parse_version("0.1.9"));
    assert!(parse_version("0.10.0") > parse_version("0.9.9"));
}

#[test]
fn checksum_entry_is_matched_by_asset_name() {
    let file = "abc123  scwx-aarch64-apple-darwin\ndef456 *scwx-x86_64-apple-darwin\n";
    assert_eq!(
        expected_sha256(file, "scwx-aarch64-apple-darwin").unwrap(),
        "abc123"
    );
    assert_eq!(
        expected_sha256(file, "scwx-x86_64-apple-darwin").unwrap(),
        "def456"
    );
    assert!(expected_sha256(file, "scwx-other").is_err());
}

#[test]
fn binary_verification_rejects_bad_magic_and_bad_hash() {
    let elf = b"\x7fELFrest-of-binary".to_vec();
    let digest = Sha256::digest(&elf);
    let hash: String = digest.iter().map(|byte| format!("{byte:02x}")).collect();

    verify_binary(&elf, &hash).unwrap();
    assert!(verify_binary(&elf, "0000").is_err());
    assert!(verify_binary(b"<html>error</html>", &hash).is_err());
}

#[test]
fn a_mismatch_reports_the_actual_digest() {
    let macho = [0xcfu8, 0xfa, 0xed, 0xfe, 1, 2, 3];
    let actual: String = Sha256::digest(macho).iter().map(|b| format!("{b:02x}")).collect();
    match verify_binary(&macho, "00") {
        Err(VerifyError::ChecksumMismatch { expected, actual: got }) => {
            assert_eq!(expected, "00");
            assert_eq!(got, actual);
        }
        other => panic!("unexpected: {other:?}"),
    }
    assert!(verify_binary(&macho, &actual).is_ok());
    assert!(verify_binary(&macho, &actual.to_uppercase()).is_err());
}

#[test]
fn hex_is_two_lowercase_digits_per_byte() {
    assert_eq!(hex(&[0x00, 0x0f, 0xa0, 0xff]), "000fa0ff");
    assert_eq!(hex(&[]), "");
}

#[test]
fn updates_only_move_forward() {
    assert_eq!(decide_update([0, 1, 0], [0, 1, 0]), UpdateDecision::UpToDate);
    assert_eq!(decide_update([0, 1, 9], [0, 2, 0]), UpdateDecision::Upgrade);
    assert_eq!(decide_update([1, 0, 0], [0, 9, 9]), UpdateDecision::Refuse);
}

#[test]
fn target_triples_cover_the_released_platforms() {
    assert_eq!(target_triple("macos", "aarch64").unwrap(), "aarch64-apple-darwin");
    assert_eq!(target_triple("linux", "x86_64").unwrap(), "x86_64-unknown-linux-gnu");
    assert!(target_triple("windows", "x86_64").is_err());
}

#[test]
fn a_written_version_reads_back() {
    for v in [[0u64, 0, 0], [1, 12, 3], [u64::MAX, 7, 0]] {
        let text = format!("{}.{}.{}", v[0], v[1], v[2]);
        assert_eq!(parse_version(&text), Some(v));
        assert_eq!(parse_version(&format!("v{text}")), Some(v));
    }
    assert_eq!(parse_version("1.2"), None);
    assert_eq!(parse_version("1.2.3.4"), None);
}

#[test]
fn assets_are_found_by_exact_name() {
    let asset = asset_name("aarch64-apple-darwin");
    assert_eq!(asset, "scwx-aarch64-apple-darwin");
    assert_eq!(checksum_asset_name(&asset), "scwx-aarch64-apple-darwin.sha256");
    let names = vec![
        "scwx-aarch64-apple-darwin.sha256".to_owned(),
        "scwx-aarch64-apple-darwin".to_owned(),
    ];
    assert_eq!(find_asset(&names, &asset), Some(1));
    assert_eq!(find_asset(&names, "scwx-x86_64-apple-darwin"), None);
}
