# Grimoire

A note-taking library with encrypted vaults, folder passwords, full-text and
semantic search, templates, note properties, a calendar view and offline
Wikipedia bundles, written in Verus: each function in `src/` carries a
contract that Verus proves.

- `src/` is the verified library. Calls into outside crates (AES-GCM,
  Argon2, base64, the OS random generator, zeroize, scraper, roxmltree) sit
  behind small trusted wrappers whose contracts say what those crates do.
- `tests/` runs the library on concrete values.
- `app/` is the Tauri desktop application around it: the commands, SQLite,
  the vector index, the model server and the system probes. It is ordinary
  Rust and is not verified.
