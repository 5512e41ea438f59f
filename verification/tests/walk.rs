use vault_core::walk::{rel_path, scan_items, Entry, ItemKind, ScanItem};
use vault_core::VaultError;

fn item(parts: &[&str], kind: ItemKind, size: u64) -> ScanItem {
    ScanItem { parts: parts.iter().map(|s| s.to_string()).collect(), kind, size, mtime: 7, readonly: false }
}

#[test]
fn rel_path_joins_with_slashes() {
    let parts: Vec<String> = vec!["sub".into(), "inner".into(), "file.txt".into()];
    assert_eq!(rel_path(&parts), "sub/inner/file.txt");
    assert_eq!(rel_path(&vec!["one".to_string()]), "one");
    assert_eq!(rel_path(&Vec::new()), "");
}

#[test]
fn scan_lists_directories_first_then_files() {
    let items = vec![
        item(&["a.txt"], ItemKind::File, 11),
        item(&["sub"], ItemKind::Dir, 4096),
        item(&["sub", "b.bin"], ItemKind::File, 300),
        item(&["sub", "inner"], ItemKind::Dir, 0),
        item(&["z"], ItemKind::File, 0),
    ];
    let s = scan_items(&items).unwrap();
    let names: Vec<&str> = s.entries.iter().map(|e| e.rel_path.as_str()).collect();
    assert_eq!(names, vec!["sub", "sub/inner", "a.txt", "sub/b.bin", "z"]);
    assert_eq!(s.total_bytes, 311);
    assert_eq!(s.entries[0], Entry { rel_path: "sub".into(), size: 0, mtime: 7, is_dir: true, readonly: false });
    assert_eq!(s.entries[3].size, 300);
}

#[test]
fn scan_keeps_file_readonly_flag_but_not_for_dirs() {
    let mut d = item(&["d"], ItemKind::Dir, 0);
    d.readonly = true;
    let mut f = item(&["f"], ItemKind::File, 1);
    f.readonly = true;
    let s = scan_items(&vec![d, f]).unwrap();
    assert!(!s.entries[0].readonly);
    assert!(s.entries[1].readonly);
}

#[test]
fn scan_refuses_symlinks() {
    let items = vec![
        item(&["a"], ItemKind::File, 1),
        item(&["sub", "link"], ItemKind::Link, 0),
        item(&["b"], ItemKind::Link, 0),
    ];
    match scan_items(&items) {
        Err(VaultError::Unsupported(msg)) => assert_eq!(msg, "symlink or reparse point not supported: sub/link"),
        other => panic!("expected Unsupported, got {:?}", other.err()),
    }
}

#[test]
fn scan_refuses_a_total_past_u64() {
    let items = vec![item(&["a"], ItemKind::File, u64::MAX), item(&["b"], ItemKind::File, 1)];
    assert!(matches!(scan_items(&items), Err(VaultError::Other(m)) if m == "folder is too large"));
}

#[test]
fn scan_of_empty_folder() {
    let s = scan_items(&Vec::new()).unwrap();
    assert!(s.entries.is_empty());
    assert_eq!(s.total_bytes, 0);
}
