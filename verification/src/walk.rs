//! Manifest entries and the folder scan that produces them.
//!
//! Policy: a folder locks fully or not at all — a symlink or reparse point
//! anywhere in it aborts the scan rather than being silently skipped.

use vstd::prelude::*;

use crate::paths::{push_chars, spec_join, chars_of};
use crate::primitives::{entry_record, entry_records, push_char};
use crate::VaultError;

verus! {

#[derive(Clone, Debug, PartialEq, Eq)]
pub struct Entry {
    /// Relative path with `/` separators, e.g. `sub/inner/file.txt`.
    pub rel_path: String,
    pub size: u64,
    /// Modification time, unix seconds (0 if unavailable).
    pub mtime: u64,
    pub is_dir: bool,
    pub readonly: bool,
}

pub struct FolderScan {
    /// Directories first (creation order), then files.
    pub entries: Vec<Entry>,
    pub total_bytes: u64,
}

/// What the file system says an item under the scanned folder is.
#[derive(Clone, Copy, Debug, PartialEq, Eq, Structural)]
pub enum ItemKind {
    Dir,
    File,
    /// A symlink or reparse point.
    Link,
}

/// One item of the folder, as met walking it depth first (a directory
/// before what it holds).
pub struct ScanItem {
    /// The item's path below the scanned folder, one name per component.
    pub parts: Vec<String>,
    pub kind: ItemKind,
    /// File length in bytes.
    pub size: u64,
    /// Modification time, unix seconds (0 if unavailable).
    pub mtime: u64,
    pub readonly: bool,
}

pub open spec fn part_views(parts: Seq<String>) -> Seq<Seq<char>> {
    parts.map_values(|s: String| s@)
}

/// The manifest path of an item: its components joined with `/`.
pub open spec fn spec_rel_path(parts: Seq<String>) -> Seq<char> {
    spec_join(part_views(parts))
}

/// Join path components with `/`.
pub fn rel_path(parts: &Vec<String>) -> (r: String)
    ensures
        r@ == spec_rel_path(parts@),
{
    let mut out = String::new();
    let mut i: usize = 0;
    while i < parts.len()
        invariant
            i <= parts@.len(),
            out@ == spec_join(part_views(parts@.take(i as int))),
        decreases parts@.len() - i,
    {
        let ghost prev = part_views(parts@.take(i as int));
        let ghost next = part_views(parts@.take(i + 1));
        assert(next.drop_last() =~= prev);
        assert(next.last() == parts@[i as int]@);
        if i > 0 {
            push_char(&mut out, '/');
        }
        let chars = chars_of(parts[i].as_str());
        push_chars(&mut out, &chars);
        proof {
            if i == 0 {
                assert(prev.len() == 0);
                assert(next.len() == 1);
            }
        }
        assert(out@ =~= spec_join(next));
        i = i + 1;
    }
    assert(parts@.take(parts@.len() as int) =~= parts@);
    out
}

/// The manifest record of a scanned item (directories carry no size and
/// are never read-only).
pub open spec fn spec_item_record(it: ScanItem) -> (Seq<char>, u64, u64, bool, bool) {
    if it.kind is Dir {
        (spec_rel_path(it.parts@), 0, it.mtime, true, false)
    } else {
        (spec_rel_path(it.parts@), it.size, it.mtime, false, it.readonly)
    }
}

pub open spec fn is_dir_item(it: ScanItem) -> bool {
    it.kind is Dir
}

pub open spec fn is_file_item(it: ScanItem) -> bool {
    it.kind is File
}

/// The records of the directories among `items`, in order.
pub open spec fn spec_dir_records(items: Seq<ScanItem>) -> Seq<(Seq<char>, u64, u64, bool, bool)> {
    items.filter(|it: ScanItem| is_dir_item(it)).map_values(|it: ScanItem| spec_item_record(it))
}

/// The records of the files among `items`, in order.
pub open spec fn spec_file_records(items: Seq<ScanItem>) -> Seq<(Seq<char>, u64, u64, bool, bool)> {
    items.filter(|it: ScanItem| is_file_item(it)).map_values(|it: ScanItem| spec_item_record(it))
}

/// The bytes of the files among `items`.
pub open spec fn spec_file_bytes(items: Seq<ScanItem>) -> nat
    decreases items.len(),
{
    if items.len() == 0 {
        0
    } else {
        spec_file_bytes(items.drop_last()) + if items.last().kind is File { items.last().size as nat } else { 0 }
    }
}

/// Item `k` is where the scan stops: it is a link, or a file that takes the
/// byte count past `u64::MAX`.
pub open spec fn spec_stops_at(items: Seq<ScanItem>, k: int) -> bool {
    ||| items[k].kind is Link
    ||| spec_file_bytes(items.take(k + 1)) > u64::MAX
}

/// The error the scan reports when it stops at item `k`.
pub open spec fn spec_stop_error(items: Seq<ScanItem>, k: int, e: VaultError) -> bool {
    if items[k].kind is Link {
        e matches VaultError::Unsupported(msg)
            && msg@ == "symlink or reparse point not supported: "@ + spec_rel_path(items[k].parts@)
    } else {
        e matches VaultError::Other(msg) && msg@ == "folder is too large"@
    }
}

/// The directories among `items`, in walk order.
pub open spec fn dir_items(items: Seq<ScanItem>) -> Seq<ScanItem> {
    items.filter(|it: ScanItem| is_dir_item(it))
}

/// The files among `items`, in walk order.
pub open spec fn file_items(items: Seq<ScanItem>) -> Seq<ScanItem> {
    items.filter(|it: ScanItem| is_file_item(it))
}

/// Each manifest entry a scan produces carries its item's own fields: the
/// directories come first, each with its joined path, its mtime, no size
/// and not read-only; then the files, each with its joined path, size,
/// mtime and read-only flag.
pub proof fn lemma_scan_entries_carry_item_fields(items: Seq<ScanItem>, entries: Seq<Entry>)
    requires
        entry_records(entries) == spec_dir_records(items) + spec_file_records(items),
    ensures
        entries.len() == dir_items(items).len() + file_items(items).len(),
        forall|j: int| 0 <= j < dir_items(items).len() ==> {
            let it = #[trigger] dir_items(items)[j];
            let e = entries[j];
            &&& e.rel_path@ == spec_rel_path(it.parts@)
            &&& e.size == 0
            &&& e.mtime == it.mtime
            &&& e.is_dir
            &&& !e.readonly
        },
        forall|j: int| 0 <= j < file_items(items).len() ==> {
            let it = #[trigger] file_items(items)[j];
            let e = entries[dir_items(items).len() + j];
            &&& e.rel_path@ == spec_rel_path(it.parts@)
            &&& e.size == it.size
            &&& e.mtime == it.mtime
            &&& !e.is_dir
            &&& e.readonly == it.readonly
        },
{
    let d = dir_items(items);
    let f = file_items(items);
    let recs = entry_records(entries);
    assert(recs.len() == entries.len());
    assert forall|j: int| 0 <= j < d.len() implies {
        let it = #[trigger] d[j];
        let e = entries[j];
        &&& e.rel_path@ == spec_rel_path(it.parts@)
        &&& e.size == 0
        &&& e.mtime == it.mtime
        &&& e.is_dir
        &&& !e.readonly
    } by {
        assert(recs[j] == spec_dir_records(items)[j]);
        assert(recs[j] == entry_record(entries[j]));
        items.lemma_filter_pred(|it: ScanItem| is_dir_item(it), j);
    }
    assert forall|j: int| 0 <= j < f.len() implies {
        let it = #[trigger] f[j];
        let e = entries[d.len() + j];
        &&& e.rel_path@ == spec_rel_path(it.parts@)
        &&& e.size == it.size
        &&& e.mtime == it.mtime
        &&& !e.is_dir
        &&& e.readonly == it.readonly
    } by {
        assert(recs[d.len() + j] == spec_file_records(items)[j]);
        assert(recs[d.len() + j] == entry_record(entries[d.len() + j]));
        items.lemma_filter_pred(|it: ScanItem| is_file_item(it), j);
    }
}

/// The sum of the sizes of `items`.
pub open spec fn spec_size_sum(items: Seq<ScanItem>) -> nat
    decreases items.len(),
{
    if items.len() == 0 { 0 } else { items[0].size as nat + spec_size_sum(items.drop_first()) }
}

proof fn lemma_size_sum_push(items: Seq<ScanItem>, it: ScanItem)
    ensures
        spec_size_sum(items.push(it)) == spec_size_sum(items) + it.size,
    decreases items.len(),
{
    if items.len() > 0 {
        assert(items.push(it).drop_first() =~= items.drop_first().push(it));
        assert(items.push(it)[0] == items[0]);
        lemma_size_sum_push(items.drop_first(), it);
        assert(spec_size_sum(items) == items[0].size as nat + spec_size_sum(items.drop_first()));
        assert(spec_size_sum(items.push(it)) == items[0].size as nat + spec_size_sum(items.drop_first().push(it)));
    } else {
        assert(items.push(it).drop_first() =~= Seq::<ScanItem>::empty());
        assert(items.push(it)[0] == it);
        assert(spec_size_sum(items) == 0);
        assert(spec_size_sum(Seq::<ScanItem>::empty()) == 0);
        assert(spec_size_sum(items.push(it)) == it.size as nat + spec_size_sum(Seq::<ScanItem>::empty()));
    }
}

/// The bytes a scan counts are the sizes of its files added up: directory
/// and link sizes never count.
pub proof fn lemma_file_bytes_sum_file_sizes(items: Seq<ScanItem>)
    ensures
        spec_file_bytes(items) == spec_size_sum(file_items(items)),
    decreases items.len(),
{
    reveal_with_fuel(Seq::<_>::filter, 1);
    if items.len() > 0 {
        let pre = items.drop_last();
        lemma_file_bytes_sum_file_sizes(pre);
        assert(pre.push(items.last()) =~= items);
        if items.last().kind is File {
            assert(file_items(items) == file_items(pre).push(items.last()));
            lemma_size_sum_push(file_items(pre), items.last());
        } else {
            assert(file_items(items) == file_items(pre));
        }
    }
}

/// Turn the items of a folder into its manifest: directories first, then
/// files, each list in walk order, with the total file bytes. Stops at the
/// first symlink (unsupported) or at a byte count past `u64::MAX`.
pub fn scan_items(items: &Vec<ScanItem>) -> (r: Result<FolderScan, VaultError>)
    ensures
        r is Ok <==> forall|k: int| 0 <= k < items@.len() ==> !spec_stops_at(items@, k),
        r matches Ok(s) ==> entry_records(s.entries@) == spec_dir_records(items@) + spec_file_records(items@)
            && s.total_bytes == spec_file_bytes(items@),
        r matches Ok(s) ==> s.entries@.len() == dir_items(items@).len() + file_items(items@).len(),
        r matches Ok(s) ==> s.total_bytes == spec_size_sum(file_items(items@)),
        r matches Ok(s) ==> forall|j: int| 0 <= j < dir_items(items@).len() ==> {
            let it = #[trigger] dir_items(items@)[j];
            let e = s.entries@[j];
            &&& e.rel_path@ == spec_rel_path(it.parts@)
            &&& e.size == 0
            &&& e.mtime == it.mtime
            &&& e.is_dir
            &&& !e.readonly
        },
        r matches Ok(s) ==> forall|j: int| 0 <= j < file_items(items@).len() ==> {
            let it = #[trigger] file_items(items@)[j];
            let e = s.entries@[dir_items(items@).len() + j];
            &&& e.rel_path@ == spec_rel_path(it.parts@)
            &&& e.size == it.size
            &&& e.mtime == it.mtime
            &&& !e.is_dir
            &&& e.readonly == it.readonly
        },
        r matches Err(e) ==> exists|k: int|
            0 <= k < items@.len() && #[trigger] spec_stops_at(items@, k) && spec_stop_error(items@, k, e)
            && forall|j: int| 0 <= j < k ==> !spec_stops_at(items@, j),
{
    let mut dirs: Vec<Entry> = Vec::new();
    let mut files: Vec<Entry> = Vec::new();
    let mut total: u64 = 0;
    let mut i: usize = 0;
    while i < items.len()
        invariant
            i <= items@.len(),
            entry_records(dirs@) == spec_dir_records(items@.take(i as int)),
            entry_records(files@) == spec_file_records(items@.take(i as int)),
            total == spec_file_bytes(items@.take(i as int)),
            forall|j: int| 0 <= j < i ==> !spec_stops_at(items@, j),
        decreases items@.len() - i,
    {
        let ghost pre = items@.take(i as int);
        let ghost cur = items@.take(i + 1);
        assert(cur.drop_last() =~= pre);
        assert(cur.last() == items@[i as int]);
        assert(cur == items@.take(i + 1));
        reveal_with_fuel(Seq::<_>::filter, 1);
        let it = &items[i];
        let rel = rel_path(&it.parts);
        match it.kind {
            ItemKind::Link => {
                let mut msg = String::from_str("symlink or reparse point not supported: ");
                msg.append(rel.as_str());
                assert(spec_stops_at(items@, i as int));
                return Err(VaultError::Unsupported(msg));
            },
            ItemKind::Dir => {
                let e = Entry { rel_path: rel, size: 0, mtime: it.mtime, is_dir: true, readonly: false };
                proof {
                    assert(cur.filter(|it: ScanItem| is_dir_item(it)) == pre.filter(|it: ScanItem| is_dir_item(it)).push(*it));
                    assert(cur.filter(|it: ScanItem| is_file_item(it)) == pre.filter(|it: ScanItem| is_file_item(it)));
                }
                let ghost eg = e;
                let ghost before = dirs@;
                dirs.push(e);
                proof {
                    assert(entry_record(eg) == spec_item_record(*it));
                    assert(entry_records(dirs@) =~= entry_records(before).push(entry_record(eg)));
                    assert(spec_dir_records(cur) =~= spec_dir_records(pre).push(spec_item_record(*it)));
                    assert(entry_records(dirs@) =~= spec_dir_records(cur));
                    assert(spec_file_bytes(cur) == spec_file_bytes(pre));
                }
            },
            ItemKind::File => {
                if it.size > u64::MAX - total {
                    assert(spec_stops_at(items@, i as int));
                    return Err(VaultError::Other(String::from_str("folder is too large")));
                }
                total = total + it.size;
                let e = Entry { rel_path: rel, size: it.size, mtime: it.mtime, is_dir: false, readonly: it.readonly };
                proof {
                    assert(cur.filter(|it: ScanItem| is_file_item(it)) == pre.filter(|it: ScanItem| is_file_item(it)).push(*it));
                    assert(cur.filter(|it: ScanItem| is_dir_item(it)) == pre.filter(|it: ScanItem| is_dir_item(it)));
                }
                let ghost eg = e;
                let ghost before = files@;
                files.push(e);
                proof {
                    assert(entry_record(eg) == spec_item_record(*it));
                    assert(entry_records(files@) =~= entry_records(before).push(entry_record(eg)));
                    assert(spec_file_records(cur) =~= spec_file_records(pre).push(spec_item_record(*it)));
                    assert(entry_records(files@) =~= spec_file_records(cur));
                }
            },
        }
        assert(!spec_stops_at(items@, i as int));
        i = i + 1;
    }
    assert(items@.take(items@.len() as int) =~= items@);
    let ghost d = dirs@;
    let ghost f = files@;
    dirs.append(&mut files);
    assert(entry_records(dirs@) =~= entry_records(d) + entry_records(f));
    proof {
        lemma_scan_entries_carry_item_fields(items@, dirs@);
        lemma_file_bytes_sum_file_sizes(items@);
    }
    Ok(FolderScan { entries: dirs, total_bytes: total })
}

} // verus!
