# qwley_launcher

The verified core of the QWLEY SHADE launcher and installer, written in Verus.

- `src/` — the library. Every function is verified except the trusted
  wrappers around outside code, whose contracts are taken on trust:
  `paths::url_encode` (`urlencoding::encode`), `lfs::decode_lossy`
  (`String::from_utf8_lossy`), `text::push_char` (`String::push`), and
  `archive::zip_len`, `archive::zip_item`, `archive::zip_read` (the `zip`
  crate's archive reader over bytes in memory). The modules:
  - `text` — character-level model: ASCII case, Unicode white space, search,
    trim, line splitting, decimal numbers.
  - `paths` — safe relative paths, Git LFS file names, percent-encoding of
    paths, archive entries, the ReShade setup program.
  - `offsets` — hexadecimal literals and the `offsets.hpp` scanner.
  - `lfs` — Git LFS pointer files and batch replies.
  - `archive` — reading the in-memory repository archive entry by entry.
  - `versions` — choosing the installed game client version.
  - `update` — which remote files are synchronised, fetched or deleted.
  - `launch` — the launcher's decisions between system calls.
  - `changelog` — update report and client version report.
- `tests/` — tests of the library on concrete values.
- `app/` — the launcher and (with `--installer`) the installer: Tauri
  windows, network, files and processes around the library.
