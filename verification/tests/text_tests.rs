use registry_core::hash::{AnyHash, HashAlg};
use registry_core::record::{Permission, Version};
use registry_core::state::Violation;
use registry_core::validator::ValidationError;

#[test]
fn hash_text_is_algorithm_colon_lowercase_hex() {
    let h = AnyHash { alg: HashAlg::Sha256, bytes: vec![0x00, 0x0f, 0xa9, 0xff] };
    assert_eq!(h.to_text(), "sha256:000fa9ff");
    let h = AnyHash { alg: HashAlg::Sha512, bytes: vec![] };
    assert_eq!(h.to_text(), "sha512:");
    let d = warg_crypto::hash::HashAlgorithm::Sha256.digest(b"x");
    let mine = AnyHash::digest(HashAlg::Sha256, b"x");
    assert_eq!(mine.to_text(), d.to_string());
}

#[test]
fn hash_text_parses_back() {
    let h = AnyHash { alg: HashAlg::Sha256, bytes: vec![0x00, 0x0f, 0xa9, 0xff] };
    assert_eq!(AnyHash::parse(&h.to_text()), Some(h));
    assert_eq!(
        AnyHash::parse("sha512:0a"),
        Some(AnyHash { alg: HashAlg::Sha512, bytes: vec![10] })
    );
    assert_eq!(AnyHash::parse("sha256:"), Some(AnyHash { alg: HashAlg::Sha256, bytes: vec![] }));
}

#[test]
fn text_that_is_no_hash_is_refused() {
    assert_eq!(AnyHash::parse(""), None);
    assert_eq!(AnyHash::parse("sha256"), None);
    assert_eq!(AnyHash::parse("md5:00"), None);
    assert_eq!(AnyHash::parse("sha256:0"), None);
    assert_eq!(AnyHash::parse("sha256:0g"), None);
    assert_eq!(AnyHash::parse("sha256:0A"), None);
    assert_eq!(AnyHash::parse("sha256:00:"), None);
    assert_eq!(AnyHash::parse("SHA256:00"), None);
}

#[test]
fn version_text_follows_semver() {
    assert_eq!(Version::new(1, 0, 0).to_text(), "1.0.0");
    assert_eq!(Version::new(0, 10, 203).to_text(), "0.10.203");
    assert_eq!(Version::new(u64::MAX, 0, 9).to_text(), "18446744073709551615.0.9");
    let tagged =
        Version { major: 1, minor: 2, patch: 3, pre: b"rc.1".to_vec(), build: b"b5".to_vec() };
    assert_eq!(tagged.to_text(), "1.2.3-rc.1+b5");
    let built = Version { major: 1, minor: 2, patch: 3, pre: vec![], build: b"b5".to_vec() };
    assert_eq!(built.to_text(), "1.2.3+b5");
    assert_eq!(
        tagged.to_text(),
        semver::Version::parse("1.2.3-rc.1+b5").unwrap().to_string()
    );
}

#[test]
fn every_validation_error_has_its_message() {
    assert_eq!(ValidationError::UnknownKey.message(), "unknown key");
    assert_eq!(
        ValidationError::Unauthorized(Permission::Commit).message(),
        "unauthorized: key lacks permission commit"
    );
    assert_eq!(
        ValidationError::Unauthorized(Permission::KeyManagement).message(),
        "unauthorized: key lacks permission key-management"
    );
    assert_eq!(ValidationError::InvalidSignature.message(), "invalid signature");
    assert_eq!(ValidationError::IncorrectHashAlgorithm.message(), "incorrect hash algorithm");
    assert_eq!(
        ValidationError::ProtocolViolation(Violation::Malformed).message(),
        "protocol violation: malformed record"
    );
    assert_eq!(
        ValidationError::ProtocolViolation(Violation::WrongLogKind).message(),
        "protocol violation: record of the wrong log kind"
    );
    assert_eq!(
        ValidationError::ProtocolViolation(Violation::PrevMismatch).message(),
        "protocol violation: previous record is not the head of the log"
    );
    assert_eq!(
        ValidationError::ProtocolViolation(Violation::InitAfterGenesis).message(),
        "protocol violation: init entry after the beginning of the log"
    );
    assert_eq!(ValidationError::RecordHashDoesNotMatch.message(), "record hash does not match");
    assert_eq!(ValidationError::TimestampRegression.message(), "timestamp regression");
    assert_eq!(
        ValidationError::ReleaseVersionReused(Version::new(1, 0, 0)).message(),
        "release version reused: 1.0.0"
    );
    assert_eq!(
        ValidationError::YankOfUnreleased(Version::new(2, 0, 0)).message(),
        "yank of unreleased version: 2.0.0"
    );
    assert_eq!(
        ValidationError::RevokeUnknownKey(AnyHash { alg: HashAlg::Sha256, bytes: vec![0xab] })
            .message(),
        "revoke of unknown key: sha256:ab"
    );
    assert_eq!(ValidationError::GenesisMissing.message(), "genesis missing");
    assert_eq!(ValidationError::GenesisWrongSigner.message(), "genesis signed by the wrong key");
}
