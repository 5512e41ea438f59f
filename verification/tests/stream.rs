use vault_core::crypto::MANIFEST_SEQ;
use vault_core::stream::{read_frame_head, ChunkCursor, EntryWalk, WalkEvent, MAX_CHUNK_FRAME_LEN};
use vault_core::walk::Entry;
use vault_core::{VaultError, CHUNK_SIZE};

fn chunks(size: u64) -> Vec<(u64, usize)> {
    let mut c = ChunkCursor::new();
    assert!(c.begin_file(size));
    let mut out = Vec::new();
    while let Some(x) = c.next_chunk() {
        out.push(x);
    }
    out
}

#[test]
fn cursor_cuts_a_file_into_full_chunks_then_the_rest() {
    let size = 3 * CHUNK_SIZE as u64 + 17;
    let got = chunks(size);
    assert_eq!(got, vec![(0, CHUNK_SIZE), (1, CHUNK_SIZE), (2, CHUNK_SIZE), (3, 17)]);
}

#[test]
fn cursor_numbers_chunks_across_files() {
    let mut c = ChunkCursor::new();
    assert!(c.begin_file(5));
    assert_eq!(c.next_chunk(), Some((0, 5)));
    assert_eq!(c.next_chunk(), None);
    // an empty file has no chunk at all
    assert!(c.begin_file(0));
    assert_eq!(c.next_chunk(), None);
    assert!(c.begin_file(CHUNK_SIZE as u64));
    assert_eq!(c.next_chunk(), Some((1, CHUNK_SIZE)));
    assert_eq!(c.next_chunk(), None);
    assert_eq!(c.seq(), 2);
    assert_eq!(c.done(), 5 + CHUNK_SIZE as u64);
    assert_eq!(c.remaining(), 0);
}

#[test]
fn cursor_refuses_a_byte_count_past_u64() {
    let mut c = ChunkCursor::new();
    assert!(c.begin_file(10));
    while c.next_chunk().is_some() {}
    assert!(!c.begin_file(u64::MAX));
    assert_eq!(c.remaining(), 0);
    assert!(c.begin_file(u64::MAX - 10));
}

#[test]
fn chunk_numbers_never_reach_the_manifest() {
    assert_eq!(MANIFEST_SEQ, u64::MAX);
    assert!(chunks(1).iter().all(|(s, _)| *s != MANIFEST_SEQ));
}

#[test]
fn frame_head_bounds() {
    let mut head = [0u8; 16];
    head[..12].copy_from_slice(&[7u8; 12]);
    head[12..].copy_from_slice(&16u32.to_le_bytes());
    assert_eq!(read_frame_head(&head, MAX_CHUNK_FRAME_LEN).unwrap(), ([7u8; 12], 16));
    head[12..].copy_from_slice(&15u32.to_le_bytes());
    assert!(matches!(read_frame_head(&head, MAX_CHUNK_FRAME_LEN), Err(VaultError::Tampered)));
    head[12..].copy_from_slice(&((MAX_CHUNK_FRAME_LEN as u32) + 1).to_le_bytes());
    assert!(matches!(read_frame_head(&head, MAX_CHUNK_FRAME_LEN), Err(VaultError::Tampered)));
    head[12..].copy_from_slice(&(MAX_CHUNK_FRAME_LEN as u32).to_le_bytes());
    assert_eq!(read_frame_head(&head, MAX_CHUNK_FRAME_LEN).unwrap().1, CHUNK_SIZE + 16);
}

fn entry(rel: &str, size: u64, is_dir: bool, mtime: u64, readonly: bool) -> Entry {
    Entry { rel_path: rel.into(), size, mtime, is_dir, readonly }
}

fn walk_all(root: &str, entries: Vec<Entry>) -> Vec<Result<WalkEvent, VaultError>> {
    let mut w = EntryWalk::new(root.into(), entries);
    let mut out = Vec::new();
    loop {
        let ev = w.step();
        let stop = matches!(ev, Ok(WalkEvent::Done) | Err(_));
        out.push(ev);
        if stop {
            return out;
        }
    }
}

#[test]
fn walk_lists_dirs_files_and_chunks_in_order() {
    let big = CHUNK_SIZE as u64 + 3;
    let evs = walk_all(
        "out",
        vec![entry("d", 0, true, 0, false), entry("d/a", big, false, 77, true), entry("e", 0, false, 0, false)],
    );
    assert_eq!(
        evs,
        vec![
            Ok(WalkEvent::Dir("out/d".into())),
            Ok(WalkEvent::FileStart { path: "out/d/a".into(), entry: 1 }),
            Ok(WalkEvent::Chunk { seq: 0, len: CHUNK_SIZE }),
            Ok(WalkEvent::Chunk { seq: 1, len: 3 }),
            Ok(WalkEvent::FileEnd { mtime: Some(77), readonly: true }),
            Ok(WalkEvent::FileStart { path: "out/e".into(), entry: 2 }),
            Ok(WalkEvent::FileEnd { mtime: None, readonly: false }),
            Ok(WalkEvent::Done),
        ]
    );
}

#[test]
fn walk_stops_at_an_escaping_path() {
    let evs = walk_all("out", vec![entry("ok", 1, false, 0, false), entry("../evil", 1, false, 0, false)]);
    assert_eq!(evs.last(), Some(&Err(VaultError::Tampered)));
    assert_eq!(evs.len(), 4);
}

#[test]
fn walk_counts_bytes_done() {
    let mut w = EntryWalk::new("r".into(), vec![entry("a", 10, false, 0, false), entry("b", 5, false, 0, false)]);
    while !matches!(w.step(), Ok(WalkEvent::Done)) {}
    assert_eq!(w.done(), 15);
}
