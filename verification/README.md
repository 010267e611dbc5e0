# o-

A JavaScript toolchain manager and npm-style package installer, with the
small standard library (`path`, `Buffer`, `console`, events) that its
runtimes share.

- `src/` is the library, verified with Verus: paths, buffers and their
  encodings, the console and event emitter, version resolution against a
  registry document, integrity checks, `bin` entries and links, lockfile
  building, package specs, the CLI's decisions and every error report.
  Calls into `nodejs-semver`, `ssri` and `toml` stand behind small trusted
  wrappers whose contracts name what those crates return.
- `app/` is the program around it: argument parsing, configuration and
  manifest files, registry downloads, tarball and zip extraction, links,
  and running toolchain binaries. Started as `o-x` it runs a package's
  binary from a throwaway project.
- `tests/` exercises the library on concrete values.

## Engines

The embedded engines (SpiderMonkey through `mozjs`, V8 through `rusty_v8`,
JavaScriptCore through `rust_jsc`) are not part of this build: their native
bindings are not among its dependencies, and installing the `path`,
`Buffer`, `console` and `events` globals into them is engine-side code.
Scripts run through an installed toolchain binary instead
(`app/engine.rs`); the library decides what the binary's exit, output and
errors mean (`src/binengine.rs`).
