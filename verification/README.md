# vault_core

FolderVault's core: the `.fvlt` container format, key handling, the
3-attempt / 24-hour lockout, master-key recovery codes, safe extraction
paths, the crash-recovery journal's replay rule, and the small decisions of
the front-ends — written in Verus. Every function of the library is proved
against its contract except the wrappers in `primitives.rs`, whose contracts
about the outside crates (AES-GCM, Argon2, HMAC/SHA-256, X25519, bincode,
the OS random generator) are trusted.

Layout:

- `src/` — the verified library.
  - `format.rs` — the 268-byte header, authorization (password or recovery
    code against the header and its lockout), the start of a new container,
    and the laws that tie them together (lock then unlock gives the data key
    back; three wrong passwords, by unlock or delete in any mix, lock out even
    the right one; a foreign header allows one attempt; the recovery code
    bypasses the lockout).
  - `stream.rs` — frames, the manifest, data chunks and how files are cut
    into them.
  - `crypto.rs`, `recovery.rs` — Argon2id, key wrapping, chunk sealing, the
    X25519 master wrap and the Crockford-base32 recovery code.
  - `lockout.rs`, `paths.rs`, `walk.rs`, `journal.rs`, `secrets.rs`,
    `dialog.rs`, `shell.rs`, `bytes.rs` — the rest of the rules.
  - `primitives.rs` — the outside cryptographic and encoding calls, each
    behind a trusted wrapper whose contract names what it returns.
- `tests/` — tests run against the compiled library with the real crates.
- `app/` — the executable: the `fvlt` command line and, on Windows, the
  Win32 dialogs and Explorer registration, doing the file-system work the
  library decides.
