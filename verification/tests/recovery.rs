use ignite::config::{BootConfig, Entry, Module};
use ignite::recovery::diagnostics::{Diagnostics, HealthStatus};
use ignite::recovery::fallback::{BootOptions, KernelEntry};
use ignite::recovery::keydetect::KeyDetector;
use ignite::recovery::manager::RecoveryManager;
use ignite::recovery::state::PersistentState;
use ignite::os::OsKey;

fn entry(name: &str) -> Entry {
    Entry { name: name.to_string(), path: format!("/boot/{}", name), modules: vec![Module { path: "initfs".to_string() }] }
}

#[test]
fn kernel_entries() {
    let e = KernelEntry::new("forge", "Redstone OS");
    assert_eq!(e.initfs, Some("initfs"));
    let e = KernelEntry::new_without_initfs("forge", "Redstone OS");
    assert_eq!(e.initfs, None);
    assert_eq!(e.path, "forge");
}

#[test]
fn default_options_boot_primary() {
    let mut o = BootOptions::default();
    assert_eq!(o.max_attempts, 3);
    for _ in 0..5 {
        o.increment_attempts();
    }
    assert!(!o.should_enter_recovery());
    assert_eq!(o.select_kernel().path, "forge");
}

#[test]
fn recovery_kernel_after_max_attempts() {
    let mut o = BootOptions::default();
    o.recovery_kernel = Some(KernelEntry::new("forge-recovery", "Recovery"));
    o.increment_attempts();
    o.increment_attempts();
    assert_eq!(o.select_kernel().path, "forge");
    o.increment_attempts();
    assert!(o.should_enter_recovery());
    assert_eq!(o.select_kernel().path, "forge-recovery");
    o.reset_attempts();
    assert_eq!(o.boot_attempts, 0);
    assert_eq!(o.select_kernel().path, "forge");
}

#[test]
fn persistent_state_saturates_and_resets() {
    let mut s = PersistentState::default();
    s.flags = 1;
    s.mark_attempt(2);
    assert_eq!((s.failed_attempts, s.last_entry_idx), (1, 2));
    s.failed_attempts = 255;
    s.mark_attempt(300);
    assert_eq!((s.failed_attempts, s.last_entry_idx), (255, 44));
    s.reset();
    assert_eq!((s.failed_attempts, s.flags), (0, 0));
}

#[test]
fn manager_uses_default_entry_and_records_attempt() {
    let config = BootConfig { entries: vec![entry("Redstone"), entry("Old")], default_entry_idx: 5, quiet: false };
    let mut m = RecoveryManager::new(PersistentState::default());
    let e = m.select_entry(&config, false);
    assert_eq!(e.name, "Old");
    let config = BootConfig { entries: vec![entry("Redstone"), entry("Old")], default_entry_idx: 0, quiet: false };
    assert_eq!(m.select_entry(&config, false).name, "Redstone");
}

#[test]
fn manager_prefers_named_recovery_entry() {
    let config = BootConfig {
        entries: vec![entry("Redstone"), entry("Redstone (RESCUE mode)"), entry("Old")],
        default_entry_idx: 0,
        quiet: false,
    };
    let mut m = RecoveryManager::new(PersistentState::default());
    assert_eq!(m.select_entry(&config, true).name, "Redstone (RESCUE mode)");
    let mut s = PersistentState::default();
    s.failed_attempts = 4;
    let mut m = RecoveryManager::new(s);
    assert_eq!(m.select_entry(&config, false).name, "Redstone (RESCUE mode)");
}

#[test]
fn manager_falls_back_to_last_entry() {
    let config = BootConfig { entries: vec![entry("Redstone"), entry("Old")], default_entry_idx: 0, quiet: true };
    let mut m = RecoveryManager::new(PersistentState::default());
    assert_eq!(m.select_entry(&config, true).name, "Old");
}

#[test]
fn kelvin_sign_lowercases_to_k() {
    let config = BootConfig { entries: vec![entry("Redstone"), entry("FALLBAC\u{212A}"), entry("x")], default_entry_idx: 0, quiet: true };
    let mut m = RecoveryManager::new(PersistentState::default());
    assert_eq!(m.select_entry(&config, true).name, "FALLBAC\u{212A}");
    assert!("FALLBAC\u{212A}".to_lowercase().contains("fallback"));
}

#[test]
fn diagnostics() {
    assert_eq!(Diagnostics::check_entry(false, &[true]), HealthStatus::Critical("Arquivo do Kernel ausente"));
    assert_eq!(Diagnostics::check_entry(true, &[true, false, false]), HealthStatus::Warning("Módulo ausente"));
    assert_eq!(Diagnostics::check_entry(true, &[true, true]), HealthStatus::Healthy);
    assert_eq!(Diagnostics::check_firmware(0x0002_0000), HealthStatus::Healthy);
    assert!(matches!(Diagnostics::check_firmware(0x0001_000A), HealthStatus::Warning(_)));
}

#[test]
fn recovery_key_is_never_seen() {
    assert!(!KeyDetector::check_recovery_key());
    KeyDetector::show_recovery_hint();
}

#[test]
fn persistent_state_bytes_round_trip() {
    let s = PersistentState { failed_attempts: 2, last_entry_idx: 7, flags: 1, checksum: 0xAB };
    let b = s.to_bytes();
    assert_eq!(b, [2, 7, 1, 0xAB]);
    let back = PersistentState::from_bytes(&b).unwrap();
    assert_eq!(back.failed_attempts, 2);
    assert_eq!(back.last_entry_idx, 7);
    assert_eq!(back.flags, 1);
    assert_eq!(back.checksum, 0xAB);
    assert!(PersistentState::from_bytes(&[1, 2, 3]).is_none());
    assert!(PersistentState::from_bytes(&[1, 2, 3, 4, 5]).is_none());
}

#[test]
fn four_failed_boots_force_recovery() {
    let config = BootConfig {
        entries: vec![entry("Redstone"), entry("Redstone recovery")],
        default_entry_idx: 0,
        quiet: false,
    };
    let mut m = RecoveryManager::new(PersistentState::default());
    for _ in 0..4 {
        assert_eq!(m.select_entry(&config, false).name, "Redstone");
    }
    assert_eq!(m.select_entry(&config, false).name, "Redstone recovery");
}

#[test]
fn recovery_key_is_r() {
    assert!(RecoveryManager::check_force_keys(Some(OsKey::Char('r'))));
    assert!(RecoveryManager::check_force_keys(Some(OsKey::Char('R'))));
    assert!(!RecoveryManager::check_force_keys(Some(OsKey::Char('x'))));
    assert!(!RecoveryManager::check_force_keys(Some(OsKey::Enter)));
    assert!(!RecoveryManager::check_force_keys(None));
}
