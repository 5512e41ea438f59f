use vault_core::bytes::hex;
use vault_core::dialog::{
    check_new_password, exit_code, lockout_countdown, may_close, progress_percent, setup_enrollment, Mode, PasswordProblem,
};
use vault_core::format::{container_name, lock_staging_name, unlock_staging_name, wipe_targets, Disposal, LockOptions};
use vault_core::secrets::{classify_stored, frame_protected, key_from_bytes, load_master_pub, StoredSecret};
use vault_core::shell::{lock_command_enabled, lock_command_params, register_if_needed, shell_commands, wide};
use vault_core::walk::Entry;
use vault_core::VaultError;

#[test]
fn new_password_checks_in_order() {
    assert_eq!(check_new_password("", ""), Err(PasswordProblem::Empty));
    assert_eq!(check_new_password("abc", "abc"), Err(PasswordProblem::TooShort));
    assert_eq!(check_new_password("abcdef", "abcdeg"), Err(PasswordProblem::Mismatch));
    assert_eq!(check_new_password("abcdef", "abcdef"), Ok(()));
    // length is counted in UTF-8 bytes: three two-byte letters are enough
    assert_eq!(check_new_password("äöü", "äöü"), Ok(()));
    assert_eq!(PasswordProblem::TooShort.message(), "Use at least 6 characters");
    assert_eq!(PasswordProblem::Empty.message(), "Enter a password");
    assert_eq!(PasswordProblem::Mismatch.message(), "Passwords do not match");
}

#[test]
fn countdown_splits_hours_minutes_seconds() {
    assert_eq!(lockout_countdown(100, 100), None);
    assert_eq!(lockout_countdown(100, 200), None);
    assert_eq!(lockout_countdown(86_400, 0), Some((24, 0, 0)));
    assert_eq!(lockout_countdown(10_000, 6_339), Some((1, 1, 1)));
}

#[test]
fn progress_is_whole_percent() {
    assert_eq!(progress_percent(0, 0), None);
    assert_eq!(progress_percent(1, 3), Some(33));
    assert_eq!(progress_percent(3, 3), Some(100));
    assert_eq!(progress_percent(u64::MAX, u64::MAX), Some(100));
    assert_eq!(progress_percent(u64::MAX, 1), Some(u64::MAX));
}

#[test]
fn exit_codes_follow_the_error() {
    assert_eq!(exit_code(&VaultError::WrongPassword { attempts_left: 1 }), 3);
    assert_eq!(exit_code(&VaultError::LockedOut { until_unix: 9 }), 4);
    assert_eq!(exit_code(&VaultError::Tampered), 5);
    assert_eq!(exit_code(&VaultError::BadMagic), 5);
    assert_eq!(exit_code(&VaultError::BadVersion(7)), 5);
    assert_eq!(exit_code(&VaultError::Exists("x".into())), 1);
    assert_eq!(exit_code(&VaultError::Other("x".into())), 1);
    assert_eq!(exit_code(&VaultError::Unsupported("x".into())), 1);
}

#[test]
fn primary_button_labels() {
    assert_eq!(Mode::Lock { src: "a".into() }.primary_label(), "Lock");
    assert_eq!(Mode::Unlock { container: "a".into() }.primary_label(), "Unlock");
    assert_eq!(Mode::Delete { container: "a".into() }.primary_label(), "Delete");
    assert_eq!(Mode::Setup { code: "a".into() }.primary_label(), "I saved it");
}

#[test]
fn master_key_enrolled_only_when_confirmed_and_saved() {
    assert_eq!(setup_enrollment([1; 32], true, true), Some([1; 32]));
    assert_eq!(setup_enrollment([1; 32], false, true), None);
    assert_eq!(setup_enrollment([1; 32], true, false), None);
}

#[test]
fn hex_is_lowercase_two_digits() {
    assert_eq!(hex(&[0x00, 0x0f, 0xa0, 0xff]), "000fa0ff");
    assert_eq!(hex(&[]), "");
}

#[test]
fn wide_is_utf16_with_nul() {
    assert_eq!(wide("Ab"), vec![0x41, 0x62, 0]);
    assert_eq!(wide(""), vec![0]);
    let s = "é😀";
    let mut want: Vec<u16> = s.encode_utf16().collect();
    want.push(0);
    assert_eq!(wide(s), want);
    assert_eq!(wide("😀"), vec![0xD83D, 0xDE00, 0]);
}

#[test]
fn registration_when_missing_or_moved() {
    assert!(register_if_needed("C:\\a\\FolderVault.exe", None));
    assert!(register_if_needed("C:\\a\\FolderVault.exe", Some("C:\\b\\FolderVault.exe")));
    assert!(!register_if_needed("C:\\a\\FolderVault.exe", Some("C:\\a\\FolderVault.exe")));
}

#[test]
fn shell_command_lines() {
    let c = shell_commands("C:\\Apps\\FolderVault.exe");
    assert_eq!(c.open_cmd, "\"C:\\Apps\\FolderVault.exe\" open \"%1\"");
    assert_eq!(c.lock_cmd, "\"C:\\Apps\\FolderVault.exe\" lock \"%1\"");
    assert_eq!(c.icon_locked, "\"C:\\Apps\\FolderVault.exe\",-2");
    assert_eq!(c.icon_app, "\"C:\\Apps\\FolderVault.exe\",-1");
}

#[test]
fn protected_files_are_told_from_raw_ones() {
    let framed = frame_protected(&[1, 2, 3]);
    assert_eq!(framed, b"FVP1\x01\x02\x03".to_vec());
    assert_eq!(classify_stored(&framed), StoredSecret::Protected(vec![1, 2, 3]));
    assert_eq!(classify_stored(&[7u8; 32]), StoredSecret::Raw(vec![7u8; 32]));
    assert_eq!(classify_stored(b"FVP"), StoredSecret::Raw(b"FVP".to_vec()));
    assert_eq!(classify_stored(b"FVP1"), StoredSecret::Protected(Vec::new()));
}

#[test]
fn keys_must_be_exactly_32_bytes() {
    assert_eq!(key_from_bytes(&[5u8; 32]), Some([5u8; 32]));
    assert_eq!(key_from_bytes(&[5u8; 31]), None);
    assert_eq!(key_from_bytes(&[5u8; 33]), None);
    assert_eq!(load_master_pub(Some(&[0x5A; 32][..])), Some([0x5A; 32]));
    assert_eq!(load_master_pub(None), None);
    assert_eq!(load_master_pub(Some(&[0x5A; 4][..])), None);
}

#[test]
fn source_disposal_rules() {
    let mut o = LockOptions::default();
    assert_eq!(o.disposal(), Disposal::Remove);
    o.recycle_original = true;
    assert_eq!(o.disposal(), Disposal::Recycle);
    o.secure_delete = true;
    assert_eq!(o.disposal(), Disposal::Wipe);
}

#[test]
fn wipe_targets_are_nonempty_files() {
    let es = vec![
        Entry { rel_path: "d".into(), size: 0, mtime: 0, is_dir: true, readonly: false },
        Entry { rel_path: "d/a".into(), size: 5, mtime: 0, is_dir: false, readonly: false },
        Entry { rel_path: "e".into(), size: 0, mtime: 0, is_dir: false, readonly: false },
        Entry { rel_path: "f".into(), size: 1, mtime: 0, is_dir: false, readonly: true },
    ];
    assert_eq!(wipe_targets(&es), vec![1, 3]);
}

#[test]
fn container_and_staging_names() {
    assert_eq!(container_name("Photos"), "Photos.fvlt");
    assert_eq!(lock_staging_name("Photos"), "Photos.fvlt.tmp");
    assert_eq!(unlock_staging_name("Photos"), "Photos.__restoring");
}

#[test]
fn explorer_command_for_one_folder() {
    assert!(lock_command_enabled(1));
    assert!(!lock_command_enabled(0));
    assert!(!lock_command_enabled(2));
    assert_eq!(lock_command_params("C:\\Users\\me\\Photos"), "lock \"C:\\Users\\me\\Photos\"");
}

#[test]
fn dialog_closes_only_when_idle() {
    assert!(may_close(false));
    assert!(!may_close(true));
}
