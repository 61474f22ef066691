# upath

Generate an available (non-colliding) file path by appending or incrementing a
bracketed numeric suffix: `a.txt` exists → `a(1).txt`, `a[3].txt` → `a[4].txt`,
`a.tar.xz` → `a(1).tar.xz`, `.gitignore` → `.gitignore(1)`.

Layout:

- `src/` — the verified library.
  - `ext.rs`: splitting a file name at its first (non-leading) dot.
  - `style.rs`: bracket styles, detecting a version suffix, rendering one,
    and the two round-trip laws between them.
  - `unique.rs`: the search as a state machine. `resolve` takes a path and
    whether it exists; a `Search` proposes candidates and takes, for each,
    whether it exists, until one is free.
  - `error.rs`: the error type.
- `app/` — the command-line program; it asks the file system whether paths
  exist and feeds the answers to the library, and handles paths that are not
  valid UTF-8.
- `tests/` — scenario and unit tests; the file system is stood in for by a
  list of taken names.
