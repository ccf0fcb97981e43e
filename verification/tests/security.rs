use ignite::config::BootConfig;
use ignite::security::blake2b::{verify_hash, Blake2b};
use ignite::security::integrity::{IntegrityChecker, VerificationResult};
use ignite::security::policy::{PolicyAction, SecurityPolicy};
use ignite::security::rollback::{KernelVersion, RollbackProtection, RollbackResult};
use ignite::security::secure_boot::{enforcement_required, state_from_variables, SecureBootState};
use ignite::security::secureboot::{SecureBootManager, SecureBootState as SbState};

fn hex(bytes: &[u8]) -> String {
    bytes.iter().map(|b| format!("{:02x}", b)).collect()
}

#[test]
fn blake2b_matches_rfc7693() {
    let abc = "ba80a53f981c4d0d6a2797b69f12f6e94c212f14685ac4b74b12bb6fdbffa2d17d87c5392aab792dc252d5de4533cc9518d38aa8dbf1925ab92386edd4009923";
    assert_eq!(hex(&Blake2b::hash(b"abc")), abc);
    assert_eq!(
        hex(&Blake2b::hash(b"")),
        "786a02f742015903c6c6fd852552d272912f4740e15847618a86e217f71f5419d25e1031afee585313896444934eb04b903a685b1448b755d56f701afe9be2ce"
    );
    assert_eq!(
        hex(&Blake2b::hash(&[b'a'; 128])),
        "fc6c71f688f43ea7d60817478808f3cac753e61571865c95adbc2d9122c943a76b92c2cb1047ef3fe7bf6e436ec1d0a99a9e5b216780bf7fed9d7ca91d3a8f3b"
    );
    assert_eq!(
        hex(&Blake2b::hash(&[b'a'; 129])),
        "55e6e0eb418149a8af92fd9ddc99254781b2f522a131b4f4d984404b71a00e1167b8124d5dcddd4c6977b299392335d6edd303da6d344d74bbef2d38101b232b"
    );
    let big: Vec<u8> = (0..512).map(|i| (i % 256) as u8).collect();
    assert_eq!(
        hex(&Blake2b::hash(&big)),
        "c59ab1095ca4579525338b6b74689ff234bc3fe9765fe26dfb04ddceaee0ab84dfd8967594cb261fcd88687f4454d80f718116c1b3c32f9f7e169357468cbe67"
    );
    // streaming in pieces gives the same digest
    let mut h = Blake2b::new(64);
    h.update(b"a");
    h.update(b"bc");
    assert_eq!(hex(&h.finalize()), abc);
    // a 32-byte digest, zero-padded
    let mut h = Blake2b::new(32);
    h.update(b"abc");
    let d = h.finalize();
    assert_eq!(hex(&d[..32]), "bddd813c634239723171ef3fee98579b94964e3bb1cb3e427262c8c068d52319");
    assert_eq!(d[32..], [0u8; 32]);
    assert!(verify_hash(b"abc", abc));
    assert!(!verify_hash(b"abc", "00"));
    assert!(!verify_hash(b"abd", abc));
    assert!(!verify_hash(b"abc", &abc.to_uppercase()));
}

#[test]
fn sha256_known_digests() {
    assert_eq!(
        hex(&IntegrityChecker::calculate_hash(b"")),
        "e3b0c44298fc1c149afbf4c8996fb92427ae41e4649b934ca495991b7852b855"
    );
    assert_eq!(
        hex(&IntegrityChecker::calculate_hash(b"abc")),
        "ba7816bf8f01cfea414140de5dae2223b00361a396177a9cb410ff61f20015ad"
    );
    // 56 bytes: the length no longer fits in the first block
    assert_eq!(
        hex(&IntegrityChecker::calculate_hash(b"abcdbcdecdefdefgefghfghighijhijkijkljklmklmnlmnomnopnopq")),
        "248d6a61d20638b8e5c026930c3e6039a33ce45964ff2167f6ecedd419db06c1"
    );
    let million = vec![b'a'; 1_000_000];
    assert_eq!(
        hex(&IntegrityChecker::calculate_hash(&million)),
        "cdc76e5c9914fb9281a1c7e284d73e67f1809a48a497200e046d39ccc7112cd0"
    );
}

#[test]
fn integrity_checks() {
    let abc = IntegrityChecker::calculate_hash(b"abc");
    assert_eq!(IntegrityChecker::verify_file(b"abc", None), VerificationResult::NoHash);
    assert_eq!(IntegrityChecker::verify_file(b"abc", Some(&abc)), VerificationResult::Valid);
    assert_eq!(IntegrityChecker::verify_file(b"abc", Some(&[0u8; 32])), VerificationResult::Mismatch);
    let mut h = abc;
    h[31] ^= 1;
    assert_eq!(IntegrityChecker::verify_file(b"abc", Some(&h)), VerificationResult::Mismatch);
    assert_eq!(IntegrityChecker::verify_file(b"abd", Some(&abc)), VerificationResult::Mismatch);
    assert!(IntegrityChecker::load_manifest().is_none());
}

#[test]
fn integrity_checks_with_hex_hashes() {
    let abc = "ba7816bf8f01cfea414140de5dae2223b00361a396177a9cb410ff61f20015ad";
    assert_eq!(IntegrityChecker::verify_file_hex(b"abc", Some(abc)), VerificationResult::Valid);
    assert_eq!(
        IntegrityChecker::verify_file_hex(b"abc", Some(&abc.to_uppercase())),
        VerificationResult::Valid
    );
    assert_eq!(IntegrityChecker::verify_file_hex(b"abd", Some(abc)), VerificationResult::Mismatch);
    let zeros = "0".repeat(64);
    assert_eq!(IntegrityChecker::verify_file_hex(b"abc", Some(&zeros)), VerificationResult::Mismatch);
    // not a 64-digit hexadecimal hash: no hash to check
    assert_eq!(IntegrityChecker::verify_file_hex(b"abc", Some("00")), VerificationResult::NoHash);
    let bad = format!("{}g", &abc[..63]);
    assert_eq!(IntegrityChecker::verify_file_hex(b"abc", Some(&bad)), VerificationResult::NoHash);
    assert_eq!(IntegrityChecker::verify_file_hex(b"abc", None), VerificationResult::NoHash);
}

#[test]
fn policy_actions() {
    let cfg = BootConfig { entries: vec![], default_entry_idx: 0, quiet: false };
    let p = SecurityPolicy::new(&cfg, true);
    assert_eq!(p.on_signature_fail(), PolicyAction::Halt);
    assert_eq!(p.on_integrity_fail(), PolicyAction::Halt);
    let p = SecurityPolicy::new(&cfg, false);
    assert_eq!(p.on_signature_fail(), PolicyAction::WarnAndContinue);
    assert_eq!(p.on_integrity_fail(), PolicyAction::WarnAndContinue);
    let quiet = BootConfig { entries: vec![], default_entry_idx: 0, quiet: true };
    let p = SecurityPolicy::new(&quiet, false);
    assert_eq!(p.on_integrity_fail(), PolicyAction::Halt);
}

#[test]
fn rollback() {
    assert_eq!(RollbackProtection::check_version(KernelVersion::new(0, 0, 9)), RollbackResult::BelowMinimum);
    assert_eq!(RollbackProtection::check_version(KernelVersion::new(0, 1, 0)), RollbackResult::Allowed);
    assert_eq!(RollbackProtection::check_version(KernelVersion::new(1, 0, 0)), RollbackResult::Allowed);
    let v = RollbackProtection::extract_version(b"\x7fELF").unwrap();
    assert_eq!(v, KernelVersion::new(0, 2, 0));
    assert_eq!(RollbackProtection::check_version(v), RollbackResult::Allowed);
    let bytes = RollbackProtection::save_current_version(KernelVersion::new(1, 0x0203, 7));
    assert_eq!(bytes, [1, 0, 3, 2, 7, 0]);
    assert_eq!(RollbackProtection::load_last_version(Some(&bytes)), Some(KernelVersion::new(1, 0x0203, 7)));
    let saved = RollbackProtection::save_current_version(v);
    assert_eq!(RollbackProtection::load_last_version(Some(&saved)), Some(v));
    assert_eq!(RollbackProtection::load_last_version(Some(&[1, 2, 3])), None);
    assert_eq!(RollbackProtection::load_last_version(None), None);
    assert!(KernelVersion::new(0, 1, 9).less_than(&KernelVersion::new(0, 2, 0)));
    assert!(!KernelVersion::new(0, 2, 0).less_than(&KernelVersion::new(0, 2, 0)));
}

#[test]
fn secure_boot_state() {
    assert_eq!(state_from_variables(Some(1), Some(1)), SecureBootState::SetupMode);
    assert_eq!(state_from_variables(Some(0), Some(1)), SecureBootState::Enforced);
    assert_eq!(state_from_variables(None, Some(0)), SecureBootState::Disabled);
    assert_eq!(state_from_variables(None, None), SecureBootState::Unknown);
    assert!(enforcement_required(SecureBootState::Enforced));
    assert!(!enforcement_required(SecureBootState::SetupMode));
}

#[test]
fn secure_boot_manager_placeholders() {
    assert_eq!(SecureBootManager::get_state(), SbState::Unknown);
    assert_eq!(SbState::Enabled.as_str(), "Habilitado");
    assert_eq!(SbState::Disabled.as_str(), "Desabilitado");
    assert_eq!(SbState::Unknown.as_str(), "Desconhecido");
    assert!(!SecureBootManager::is_setup_mode());
    assert!(SecureBootManager::validate_signature(b"a", b"b"));
    assert!(!SecureBootManager::validate_signature(b"kernel", b""));
    assert!(SecureBootManager::read_authorized_db().is_none());
    assert!(SecureBootManager::read_forbidden_db().is_none());
    assert!(!SecureBootManager::is_certificate_revoked(b"c"));
}

#[test]
fn file_checks_against_its_own_hex_hash() {
    let data: Vec<u8> = (0..300u32).map(|i| (i * 7 + 3) as u8).collect();
    let h = hex(&IntegrityChecker::calculate_hash(&data));
    assert_eq!(IntegrityChecker::verify_file_hex(&data, Some(&h)), VerificationResult::Valid);
    assert_eq!(IntegrityChecker::verify_file_hex(&data[1..], Some(&h)), VerificationResult::Mismatch);
}
