//! The container body: the manifest frame and the data frames after the
//! header, and how file contents are cut into chunks.

use vstd::prelude::*;
use vstd::bytes::*;

use crate::crypto::{spec_chunk_aad, ChunkCipher, MANIFEST_SEQ, NONCE_LEN, TAG_LEN};
use crate::paths::{safe_join, spec_components, spec_join, spec_rel_path_ok, spec_root_prefix};
use crate::primitives::{
    bincode_decode_entries, entry_records, spec_bincode_parse_entries, spec_gcm_open,
};
use crate::walk::Entry;
use crate::{VaultError, CHUNK_SIZE};

verus! {

/// Upper bound for the encrypted manifest frame (~1M entries).
pub const MAX_MANIFEST_LEN: usize = 256 * 1024 * 1024;

/// Largest blob of a data frame: one full chunk and its tag.
pub const MAX_CHUNK_FRAME_LEN: usize = CHUNK_SIZE + TAG_LEN;

/// Bytes before a frame's blob: nonce (12) and blob length (u32 LE).
pub const FRAME_HEAD_LEN: usize = NONCE_LEN + 4;

/// The blob length a frame head announces.
pub open spec fn spec_frame_len(head: Seq<u8>) -> u32 {
    spec_u32_from_le_bytes(head.subrange(12, 16))
}

/// Read a frame head. The announced blob must hold at least a tag and at
/// most `max_len` bytes; anything else is tampering.
pub fn read_frame_head(head: &[u8; FRAME_HEAD_LEN], max_len: usize) -> (r: Result<([u8; NONCE_LEN], usize), VaultError>)
    ensures
        r is Ok <==> TAG_LEN <= spec_frame_len(head@) <= max_len,
        r matches Ok((nonce, len)) ==> nonce@ == head@.subrange(0, 12) && len == spec_frame_len(head@),
        r matches Err(e) ==> e == VaultError::Tampered,
{
    let nonce: [u8; NONCE_LEN] = crate::bytes::take_array(head, 0);
    let len_bytes: [u8; 4] = crate::bytes::take_array(head, 12);
    let len = u32_from_le_bytes(&len_bytes) as usize;
    if len < TAG_LEN || len > max_len {
        return Err(VaultError::Tampered);
    }
    Ok((nonce, len))
}

/// A frame head announces exactly the blob that follows it.
pub proof fn lemma_frame_head_of_frame(nonce: Seq<u8>, blob: Seq<u8>)
    requires
        nonce.len() == 12,
        blob.len() <= u32::MAX,
    ensures
        crate::crypto::spec_frame(nonce, blob).subrange(0, 12) == nonce,
        spec_frame_len(crate::crypto::spec_frame(nonce, blob).subrange(0, 16)) == blob.len(),
        crate::crypto::spec_frame(nonce, blob).subrange(16, 16 + blob.len() as int) == blob,
{
    lemma_auto_spec_u32_to_from_le_bytes();
    let f = crate::crypto::spec_frame(nonce, blob);
    assert(f.subrange(0, 12) =~= nonce);
    assert(f.subrange(0, 16).subrange(12, 16) =~= spec_u32_to_le_bytes(blob.len() as u32));
    assert(f.subrange(16, 16 + blob.len() as int) =~= blob);
}

/// The manifest records a manifest blob opens to under `key` in the
/// container `uuid`, when it authenticates, parses and lists `count`
/// entries.
pub open spec fn spec_manifest(
    key: Seq<u8>,
    uuid: Seq<u8>,
    nonce: Seq<u8>,
    blob: Seq<u8>,
    count: u64,
) -> Option<Seq<(Seq<char>, u64, u64, bool, bool)>> {
    match spec_gcm_open(key, nonce, spec_chunk_aad(uuid, MANIFEST_SEQ), blob) {
        Some(m) => match spec_bincode_parse_entries(m) {
            Some(recs) => if recs.len() == count { Some(recs) } else { None },
            None => None,
        },
        None => None,
    }
}

/// Decrypt and parse the manifest frame. Whatever fails to authenticate,
/// fails to parse, or lists another number of entries than the header is
/// tampering.
pub fn open_manifest(cipher: &ChunkCipher, nonce: &[u8; NONCE_LEN], blob: &[u8], entry_count: u64) -> (r: Result<Vec<Entry>, VaultError>)
    ensures
        r is Ok <==> spec_manifest(cipher.spec_key(), cipher.spec_uuid(), nonce@, blob@, entry_count) is Some,
        r matches Ok(v) ==> spec_manifest(cipher.spec_key(), cipher.spec_uuid(), nonce@, blob@, entry_count)
            == Some(entry_records(v@)),
        r matches Err(e) ==> e == VaultError::Tampered,
{
    let manifest = cipher.open(MANIFEST_SEQ, nonce, blob)?;
    let entries = match bincode_decode_entries(manifest.as_slice()) {
        Ok(v) => v,
        Err(_) => { return Err(VaultError::Tampered); },
    };
    if entries.len() as u64 != entry_count {
        return Err(VaultError::Tampered);
    }
    Ok(entries)
}

/// What a data blob opens to as chunk `seq`, when it authenticates and
/// holds exactly `expected` bytes.
pub open spec fn spec_chunk(key: Seq<u8>, uuid: Seq<u8>, seq: u64, nonce: Seq<u8>, blob: Seq<u8>, expected: nat) -> Option<Seq<u8>> {
    match spec_gcm_open(key, nonce, spec_chunk_aad(uuid, seq), blob) {
        Some(p) => if p.len() == expected { Some(p) } else { None },
        None => None,
    }
}

/// Decrypt data chunk `seq`, which must hold `expected` plaintext bytes.
pub fn open_chunk(cipher: &ChunkCipher, seq: u64, nonce: &[u8; NONCE_LEN], blob: &[u8], expected: usize) -> (r: Result<Vec<u8>, VaultError>)
    ensures
        r is Ok <==> spec_chunk(cipher.spec_key(), cipher.spec_uuid(), seq, nonce@, blob@, expected as nat) is Some,
        r matches Ok(p) ==> spec_chunk(cipher.spec_key(), cipher.spec_uuid(), seq, nonce@, blob@, expected as nat) == Some(p@),
        r matches Err(e) ==> e == VaultError::Tampered,
{
    let plain = cipher.open(seq, nonce, blob)?;
    if plain.len() != expected {
        return Err(VaultError::Tampered);
    }
    Ok(plain)
}

/// A sealed chunk opens, as the same chunk of the same container, to what
/// was sealed.
pub proof fn lemma_sealed_chunk_opens(key: Seq<u8>, uuid: Seq<u8>, seq: u64, nonce: Seq<u8>, blob: Seq<u8>, plain: Seq<u8>)
    requires
        spec_gcm_open(key, nonce, spec_chunk_aad(uuid, seq), blob) == Some(plain),
    ensures
        spec_chunk(key, uuid, seq, nonce, blob, plain.len()) == Some(plain),
{
}

/// The smaller of a file's remaining bytes and a chunk.
pub open spec fn spec_chunk_len(remaining: u64) -> u64 {
    if remaining < CHUNK_SIZE { remaining } else { CHUNK_SIZE as u64 }
}

/// Where the stream of data chunks stands: the next sequence number, the
/// bytes of the current file still to go, and the bytes done so far.
pub struct ChunkCursor {
    seq: u64,
    remaining: u64,
    done: u64,
}

impl ChunkCursor {
    #[verifier::type_invariant]
    spec fn counts_fit(self) -> bool {
        &&& self.seq <= self.done
        &&& self.done + self.remaining <= u64::MAX
    }

    pub closed spec fn spec_seq(self) -> u64 {
        self.seq
    }

    pub closed spec fn spec_remaining(self) -> u64 {
        self.remaining
    }

    pub closed spec fn spec_done(self) -> u64 {
        self.done
    }

    /// A cursor at the start of the stream.
    pub fn new() -> (c: Self)
        ensures
            c.spec_seq() == 0,
            c.spec_remaining() == 0,
            c.spec_done() == 0,
    {
        ChunkCursor { seq: 0, remaining: 0, done: 0 }
    }

    pub fn seq(&self) -> (s: u64)
        ensures
            s == self.spec_seq(),
    {
        self.seq
    }

    pub fn remaining(&self) -> (n: u64)
        ensures
            n == self.spec_remaining(),
    {
        self.remaining
    }

    pub fn done(&self) -> (n: u64)
        ensures
            n == self.spec_done(),
    {
        self.done
    }

    /// Start the next file, of `size` bytes. Refused (the cursor left as it
    /// is) when the byte count would pass `u64::MAX`.
    pub fn begin_file(&mut self, size: u64) -> (ok: bool)
        requires
            old(self).spec_remaining() == 0,
        ensures
            ok == (old(self).spec_done() + size <= u64::MAX),
            ok ==> final(self).spec_remaining() == size,
            !ok ==> final(self).spec_remaining() == 0,
            final(self).spec_seq() == old(self).spec_seq(),
            final(self).spec_done() == old(self).spec_done(),
    {
        proof {
            use_type_invariant(&*self);
        }
        if size > u64::MAX - self.done {
            return false;
        }
        *self = ChunkCursor { seq: self.seq, remaining: size, done: self.done };
        true
    }

    /// The next chunk of the current file: its sequence number and length
    /// (a full chunk, or what is left), or `None` once the file is done.
    /// Sequence numbers count up from 0 and never reach the manifest's.
    pub fn next_chunk(&mut self) -> (r: Option<(u64, usize)>)
        ensures
            old(self).spec_remaining() == 0 ==> r is None && *final(self) == *old(self),
            old(self).spec_remaining() > 0 ==> (r matches Some((s, n)) && {
                &&& s == old(self).spec_seq()
                &&& s < MANIFEST_SEQ
                &&& n == spec_chunk_len(old(self).spec_remaining())
                &&& final(self).spec_seq() == s + 1
                &&& final(self).spec_remaining() == old(self).spec_remaining() - n
                &&& final(self).spec_done() == old(self).spec_done() + n
            }),
    {
        proof {
            use_type_invariant(&*self);
        }
        if self.remaining == 0 {
            return None;
        }
        let n: u64 = if self.remaining < CHUNK_SIZE as u64 { self.remaining } else { CHUNK_SIZE as u64 };
        let s = self.seq;
        *self = ChunkCursor { seq: s + 1, remaining: self.remaining - n, done: self.done + n };
        Some((s, n as usize))
    }
}

/// Cutting a file into chunks: the chunks of a file of `size` bytes are
/// full chunks but the last, and together they hold exactly `size` bytes.
pub open spec fn spec_chunks_of(size: nat) -> Seq<nat>
    decreases size,
{
    if size == 0 {
        Seq::empty()
    } else if size <= CHUNK_SIZE {
        seq![size]
    } else {
        seq![CHUNK_SIZE as nat] + spec_chunks_of((size - CHUNK_SIZE) as nat)
    }
}

pub open spec fn spec_sum(s: Seq<nat>) -> nat
    decreases s.len(),
{
    if s.len() == 0 { 0 } else { s[0] + spec_sum(s.drop_first()) }
}

/// The chunks of a file add up to the file, each holds between one byte
/// and a full chunk, and every one but the last is full.
pub proof fn lemma_chunks_cover_file(size: nat)
    ensures
        spec_sum(spec_chunks_of(size)) == size,
        forall|i: int| 0 <= i < spec_chunks_of(size).len() ==> 1 <= #[trigger] spec_chunks_of(size)[i] <= CHUNK_SIZE,
        forall|i: int| 0 <= i < spec_chunks_of(size).len() - 1 ==> #[trigger] spec_chunks_of(size)[i] == CHUNK_SIZE,
    decreases size,
{
    if size > CHUNK_SIZE {
        let rest = spec_chunks_of((size - CHUNK_SIZE) as nat);
        lemma_chunks_cover_file((size - CHUNK_SIZE) as nat);
        let all = spec_chunks_of(size);
        assert(all == seq![CHUNK_SIZE as nat] + rest);
        assert(all.drop_first() =~= rest);
        assert(all[0] == CHUNK_SIZE);
        assert(spec_sum(all) == all[0] + spec_sum(all.drop_first()));
        assert forall|i: int| 0 <= i < all.len() implies 1 <= #[trigger] all[i] <= CHUNK_SIZE by {
            if i > 0 {
                assert(all[i] == rest[i - 1]);
            }
        }
        assert forall|i: int| 0 <= i < all.len() - 1 implies #[trigger] all[i] == CHUNK_SIZE by {
            if i > 0 {
                assert(all[i] == rest[i - 1]);
            }
        }
    } else if size > 0 {
        let all = spec_chunks_of(size);
        assert(all.drop_first() =~= Seq::<nat>::empty());
        assert(spec_sum(all) == all[0] + spec_sum(all.drop_first()));
    }
}

/// The cursor hands out exactly those chunks: the chunk it gives while
/// `remaining` bytes are left is the first chunk of a file of that size,
/// and what is left after it is cut as the rest.
pub proof fn lemma_cursor_step_follows_chunks(remaining: u64)
    requires
        remaining > 0,
    ensures
        spec_chunks_of(remaining as nat)[0] == spec_chunk_len(remaining),
        spec_chunks_of(remaining as nat).drop_first()
            == spec_chunks_of((remaining - spec_chunk_len(remaining)) as nat),
{
    let all = spec_chunks_of(remaining as nat);
    if remaining > CHUNK_SIZE {
        assert(all.drop_first() =~= spec_chunks_of((remaining - CHUNK_SIZE) as nat));
    } else {
        assert(all.drop_first() =~= Seq::<nat>::empty());
    }
}

/// What walking a manifest asks for next.
#[derive(Debug, PartialEq, Eq)]
pub enum WalkEvent {
    /// A directory entry, at this path under the root.
    Dir(String),
    /// File entry number `entry` starts, at `path` under the root.
    FileStart { path: String, entry: usize },
    /// The next chunk of the current file: its sequence number and length.
    Chunk { seq: u64, len: usize },
    /// The current file is complete: its modification time (when the
    /// manifest has one) and whether it is read-only.
    FileEnd { mtime: Option<u64>, readonly: bool },
    /// Every entry has been walked.
    Done,
}

/// A walk over the entries of a manifest in order, joining each path onto
/// a root and cutting each file into its chunks, numbered across the whole
/// container. Locking reads the files it names and seals the chunks;
/// unlocking creates what it names and opens the chunks into it.
pub struct EntryWalk {
    root: String,
    entries: Vec<Entry>,
    next: usize,
    in_file: bool,
    cursor: ChunkCursor,
}

/// The path of manifest path `rel` under `root`.
pub open spec fn spec_path_under(root: Seq<char>, rel: Seq<char>) -> Seq<char> {
    spec_root_prefix(root) + spec_join(spec_components(rel))
}

impl EntryWalk {
    /// The walk's state is consistent: it has not run past the entries, it
    /// hands out chunks only inside a file entry, and between files no
    /// bytes are pending.
    pub closed spec fn wf(self) -> bool {
        &&& self.next <= self.entries@.len()
        &&& self.in_file ==> self.next >= 1 && !self.entries@[self.next - 1].is_dir
        &&& !self.in_file ==> self.cursor.remaining == 0
    }

    pub closed spec fn spec_root(self) -> Seq<char> {
        self.root@
    }

    pub closed spec fn spec_entries(self) -> Seq<Entry> {
        self.entries@
    }

    /// How many entries have been started.
    pub closed spec fn spec_next(self) -> nat {
        self.next as nat
    }

    /// Whether the chunks of a file are being handed out.
    pub closed spec fn spec_in_file(self) -> bool {
        self.in_file
    }

    pub closed spec fn spec_cursor(self) -> ChunkCursor {
        self.cursor
    }

    /// A walk over `entries` under `root`, before its first entry.
    pub fn new(root: String, entries: Vec<Entry>) -> (w: Self)
        ensures
            w.wf(),
            w.spec_root() == root@,
            w.spec_entries() == entries@,
            w.spec_next() == 0,
            !w.spec_in_file(),
            w.spec_cursor().spec_seq() == 0,
            w.spec_cursor().spec_remaining() == 0,
            w.spec_cursor().spec_done() == 0,
    {
        EntryWalk { root, entries, next: 0, in_file: false, cursor: ChunkCursor::new() }
    }

    /// The bytes of file contents walked so far.
    pub fn done(&self) -> (n: u64)
        ensures
            n == self.spec_cursor().spec_done(),
    {
        self.cursor.done()
    }

    /// The next event of the walk. A path that could leave the root, or a
    /// byte count past `u64::MAX`, is tampering.
    pub fn step(&mut self) -> (r: Result<WalkEvent, VaultError>)
        requires
            old(self).wf(),
        ensures
            final(self).wf(),
            final(self).spec_root() == old(self).spec_root(),
            final(self).spec_entries() == old(self).spec_entries(),
            old(self).spec_in_file() && old(self).spec_cursor().spec_remaining() > 0 ==> {
                let c = old(self).spec_cursor();
                &&& r == Ok::<WalkEvent, VaultError>(WalkEvent::Chunk {
                    seq: c.spec_seq(),
                    len: spec_chunk_len(c.spec_remaining()) as usize,
                })
                &&& c.spec_seq() < MANIFEST_SEQ
                &&& final(self).spec_in_file()
                &&& final(self).spec_next() == old(self).spec_next()
                &&& final(self).spec_cursor().spec_seq() == c.spec_seq() + 1
                &&& final(self).spec_cursor().spec_remaining() == c.spec_remaining() - spec_chunk_len(c.spec_remaining())
                &&& final(self).spec_cursor().spec_done() == c.spec_done() + spec_chunk_len(c.spec_remaining())
            },
            old(self).spec_in_file() && old(self).spec_cursor().spec_remaining() == 0 ==> {
                let e = old(self).spec_entries()[old(self).spec_next() - 1];
                &&& r == Ok::<WalkEvent, VaultError>(WalkEvent::FileEnd {
                    mtime: if e.mtime > 0 { Some(e.mtime) } else { None },
                    readonly: e.readonly,
                })
                &&& !final(self).spec_in_file()
                &&& final(self).spec_next() == old(self).spec_next()
                &&& final(self).spec_cursor() == old(self).spec_cursor()
            },
            !old(self).spec_in_file() && old(self).spec_next() == old(self).spec_entries().len() ==> {
                &&& r == Ok::<WalkEvent, VaultError>(WalkEvent::Done)
                &&& final(self).spec_next() == old(self).spec_next()
                &&& !final(self).spec_in_file()
                &&& final(self).spec_cursor() == old(self).spec_cursor()
            },
            !old(self).spec_in_file() && old(self).spec_next() < old(self).spec_entries().len() ==> {
                let e = old(self).spec_entries()[old(self).spec_next() as int];
                let c = old(self).spec_cursor();
                &&& final(self).spec_next() == old(self).spec_next() + 1
                &&& final(self).spec_cursor().spec_seq() == c.spec_seq()
                &&& final(self).spec_cursor().spec_done() == c.spec_done()
                &&& !spec_rel_path_ok(e.rel_path@) ==> r == Err::<WalkEvent, VaultError>(VaultError::Tampered)
                &&& spec_rel_path_ok(e.rel_path@) && e.is_dir ==> (r matches Ok(WalkEvent::Dir(p))
                    && p@ == spec_path_under(old(self).spec_root(), e.rel_path@) && !final(self).spec_in_file())
                &&& spec_rel_path_ok(e.rel_path@) && !e.is_dir && c.spec_done() + e.size > u64::MAX
                    ==> r == Err::<WalkEvent, VaultError>(VaultError::Tampered)
                &&& spec_rel_path_ok(e.rel_path@) && !e.is_dir && c.spec_done() + e.size <= u64::MAX
                    ==> (r matches Ok(WalkEvent::FileStart { path: p, entry: k }) && k == old(self).spec_next()
                    && p@ == spec_path_under(old(self).spec_root(), e.rel_path@)
                    && final(self).spec_in_file() && final(self).spec_cursor().spec_remaining() == e.size)
            },
    {
        if self.in_file {
            match self.cursor.next_chunk() {
                Some((seq, len)) => Ok(WalkEvent::Chunk { seq, len }),
                None => {
                    let e = &self.entries[self.next - 1];
                    let mtime = if e.mtime > 0 { Some(e.mtime) } else { None };
                    let readonly = e.readonly;
                    self.in_file = false;
                    Ok(WalkEvent::FileEnd { mtime, readonly })
                },
            }
        } else if self.next == self.entries.len() {
            Ok(WalkEvent::Done)
        } else {
            let i = self.next;
            self.next = i + 1;
            let path = safe_join(self.root.as_str(), self.entries[i].rel_path.as_str())?;
            if self.entries[i].is_dir {
                return Ok(WalkEvent::Dir(path));
            }
            let size = self.entries[i].size;
            if !self.cursor.begin_file(size) {
                return Err(VaultError::Tampered);
            }
            self.in_file = true;
            Ok(WalkEvent::FileStart { path, entry: i })
        }
    }
}

} // verus!
