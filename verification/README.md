# gmodpatchtool

GModPatchTool patches Garry's Mod to update its Chromium Embedded Framework and fix
common launch problems on Windows, Linux (including Proton) and macOS.

The crate is split in two:

- `src/` is the library, written in Verus and verified: the Steam VDF grammar and the
  readers for `loginusers.vdf`, `libraryfolders.vdf`, `appmanifest_*.acf`, `config.vdf`
  and `localconfig.vdf`; the integrity decision for each managed file and the order of
  the steps that bring it to its fixed form; bsdiff header checks and patch application
  with checksum verification; the Proton AppContainer hotfix of the game executables;
  the download retry rule; the manifest lookup and path safety rules; the lock file and
  terminal output. Calls into outside crates (BLAKE3, zstd, qbsdiff, regex, steamid,
  indicatif) go through small trusted wrappers whose contracts state what the crates
  document.
- `app/` is the program around it: argument parsing, file and network I/O, the
  progress UI and the patch run itself, which asks the library for every decision.

`tests/` exercises the library on concrete inputs.
