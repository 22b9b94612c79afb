# vdm

`vdm` vendors source files from GitHub repositories, other Git repositories
and HTTP URLs into a project's `vendor/` folder, following the JavaScript and
TypeScript imports of each file, and records what it vendored in `vdm.lock`
next to the `vdm.toml` manifest.

The library under `src/` is verified with Verus: every public function states
its result in its contract, over mathematical models of the targets, the
manifest, the lock and the dependency graph.

- `source/`, `github/`, `git/`, `http/`: reading targets
  (`gh:owner/repo[:path][@version]`, `<repository-url>:path[@ref]`, HTTP URLs
  with an optional `@sha256:` pin) and their keys, versions and vendor paths.
- `manifest/`, `lock/`, `map.rs`: the manifest and the lock, kept as maps in key
  order; the lock's document form and how it is read back.
- `graph.rs`, `vendor.rs`, `review.rs`: walking a dependency graph, what an
  install, add or update records, which files stay reachable, and the reviewed
  form of an update.
- `git/cache.rs`, `github/cache.rs`, `paths.rs`, `dirs.rs`, `state.rs`: where
  repositories are cached and files written, and the steps of loading a project.
- `javascript.rs`, `rust/`: which forms of a source's syntax name a dependency,
  and how a Rust crate's module files are found.
- `diff.rs`: the line diff shown when reviewing an update.
- `cli.rs`: the command line.

The program under `app/` performs the file, network and Git work and the
parsing with `oxc`, `syn` and `toml`, and hands the library plain values.
