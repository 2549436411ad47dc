# unity-fixtures

Builds one Unity version's fixture assets: one whole player per variant,
zipped and hashed, with each asset's manifest entry printed at the end.

- `src/` is the library, verified with Verus: version strings and the
  versions an editor path names (`version`), platforms, flavors and the
  variants an editor offers (`variant`), the editor runs and the names of
  their logs and assets (`run`), which of a build's files an asset holds and
  when a build is complete (`files`), the order of a build's files
  (`order`), and the manifest entry with the asset's SHA-256 digest
  (`manifest`). `text` holds the string operations the rest is built from.
- `app/main.rs` is the command-line tool around it: argument parsing, the
  editor runs, walking and copying directories, and writing the zip.

Usage: `-e/--editor <path>`, `-o/--out <dir>`,
`--editor-version <version>` when the path names none, and
`-v/--variant <name>...` to build only some variants, such as
`win-x64-mono-bdwgc linux-x64-il2cpp-release`.
