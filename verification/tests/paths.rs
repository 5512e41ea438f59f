use vault_core::paths::safe_join;
use vault_core::VaultError;

#[test]
fn safe_join_rejects_escapes() {
    let root = "out";
    assert!(safe_join(root, "a/b.txt").is_ok());
    assert!(safe_join(root, "..").is_err());
    assert!(safe_join(root, "a/../../b").is_err());
    assert!(safe_join(root, "/etc/passwd").is_err());
    assert!(safe_join(root, "C:/windows/system32").is_err());
    assert!(safe_join(root, "").is_err());
}

#[test]
fn safe_join_builds_the_path_under_root() {
    assert_eq!(safe_join("out", "a/b.txt").unwrap(), "out/a/b.txt");
    assert_eq!(safe_join("out/", "a\\b.txt").unwrap(), "out/a/b.txt");
    assert_eq!(safe_join("out", "a//./b").unwrap(), "out/a/b");
    assert_eq!(safe_join("", "x").unwrap(), "x");
    assert_eq!(safe_join("C:\\vault\\", "sub/f").unwrap(), "C:\\vault\\sub/f");
}

#[test]
fn safe_join_rejects_windows_specials() {
    for bad in ["\\\\server\\share", "\\x", "./a", "a/file.txt:stream", "CON", "sub/nul.txt", "com1",
        "Lpt9.log", "aux  ", "PRN.tar.gz", "a/b/..", "c:x"] {
        assert!(matches!(safe_join("r", bad), Err(VaultError::Tampered)), "{bad} must be refused");
    }
    for ok in ["console", "com10", "lpt0", "nul_file", "a.b/c..d", "...", ".hidden/x"] {
        assert!(safe_join("r", ok).is_ok(), "{ok} must be accepted");
    }
}

#[test]
fn safe_join_accepts_dot_names_inside() {
    assert_eq!(safe_join("r", "a/.hidden").unwrap(), "r/a/.hidden");
    assert_eq!(safe_join("r", "...").unwrap(), "r/...");
    assert!(safe_join("r", ".hidden/x").is_ok());
}
