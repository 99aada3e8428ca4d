# stowe

A local-first secrets vault for macOS backed by the system Keychain, written
as a Verus library with a thin command-line application around it.

- `src/` is the verified library: the vault model and its in-memory
  implementation, the Keychain vault's naming, validation and index, the
  manifest (`stowe.toml`) and its upward search, binary verification
  (excluded build directories, allowlist, codesign verdict), `sandbox-exec`
  profile generation, the audit log's rows and queries, export, wipe, and
  the commands' logic. Calls into outside crates (Keychain access, `age`,
  `serde_json`, `chrono`, `dirs`, `zeroize`) sit behind small trusted
  wrappers whose contracts are stated next to them.
- `app/` is the `stowe` binary: argument parsing, prompts, files and TOML,
  the SQLite database, running `codesign`, `which` and the child process.
  Entered under the name `secrets` (a link to the same program), it is the
  plain `secrets add | list | reveal` command line.
- `tests/` exercises the library from outside.
