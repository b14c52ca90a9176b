# easytier_manager

The verified core of the EasyTier manager desktop application, written in
Verus. `src/` holds the logic behind the application's commands with its
contracts and proofs; `app/` is the Tauri application that runs processes,
touches the file system and the window, and calls the library for every
decision and every reply it gives.

- `src/text.rs`, `src/decimal.rs`, `src/path.rs`: string, number and
  path operations specified as std documents them.
- `src/digest.rs`: published SHA-256 digests and the archive check (the hash
  itself comes from the `sha2` crate).
- `src/process.rs`: reading `ps -axo pid=,rss=,comm=,args=` output.
- `src/install.rs`: the decisions of installing a core archive, including
  the backup-and-restore swap as a step function the application drives.
- `src/elevated.rs`: the macOS launch, stop and terminal requests.
- `src/commands.rs`: command replies, the cold-start decision, log lines.
