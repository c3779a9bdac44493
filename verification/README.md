# whogoesthere

Linux persistence enumeration with package-ownership attribution: every
place a host can be told to run something (systemd units, cron, SysV init,
udev rules, kernel module hooks, the dynamic loader, PAM, SSH, D-Bus
activation, NetworkManager dispatchers, X session hooks, apt hooks) is
surveyed, and each entry is marked with the package that owns it or as
`UNTRACKED`.

## Layout

- `src/` — the verified library (Verus). Every parser, every finding
  builder, the ownership index and its attribution pass, snapshot
  comparison and the text report carry `requires`/`ensures` contracts over
  mathematical models (`Seq<char>` text, `Map` metadata, component-wise
  paths) and are proved.
  - `text.rs`, `path.rs` — character-level text and path models
    (`str::trim`, `lines`, `split_whitespace`, `Path::components`, …).
  - `finding.rs` — findings, scopes, package status, string-keyed maps.
  - `util.rs` — INI documents, line continuations, directory dedup, users.
  - `checkers/` — one module per persistence surface.
  - `package_ownership.rs` — the ownership index, package-backend parsers,
    benign-symlink, snap and postinst attribution.
  - `diff.rs` — snapshot comparison by persistence-vector identity.
  - `survey.rs` — checker selection, the untracked filter, text output.
- `app/` — the command line: directory walks, file reads, metadata,
  package-manager probing, JSON via serde.
- `tests/` — unit and scenario tests of the library.
