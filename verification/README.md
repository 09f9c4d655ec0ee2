# clippy_lintcheck

A verified core of clippy's `lintcheck` tool, of the compiler wrapper it
installs in recursive mode, of the `clippy_dev` toolchain installer, and of a
few clippy lints, written in Verus.

## Layout

- `src/`: the library. Every executable function carries a `requires` /
  `ensures` contract that Verus proves.
  - `closure_call`, `casts`, `unnecessary_join`, `borrowed_param`,
    `rust_version`: lints and their helpers, over small models of the syntax
    trees the compiler hands a lint.
  - `lintcheck`: argument lists, package choice in recursive mode, the layout
    of the workspace of sources, perf run numbers.
  - `rustc_wrapper`, `driver`, `recursive`: the wrapper that cargo runs for
    every crate, and the server that tells each wrapper what to do and turns
    the diagnostics it sends back into warnings. A crate is checked by clippy
    at most once per run.
  - `input`, `install`, `text`: the sources list, the installer, string
    helpers.
- `tests/`: tests of the library on concrete values.
- `app/`: the program around the library: files, processes, sockets,
  threads and serde.

Calls into `bstr`, `regex`, `rustc-semver`, `semver`, `serde_json` (reading
`cargo_metadata` diagnostics) and std functions that
vstd does not specify go through small trusted wrappers whose contracts
restate the outside crates' documentation; each one's doc comment says what it
claims.
