# nu_plugin_jwalk

A nushell plugin that walks a directory tree with one of several engines
(jwalk by default, dua-core, ignore, walkdir; zlob needs a build with Zig and
is refused here), written as a Verus-verified library and a thin program.

- `src/` — the verified library
  - `options.rs`: engines, yield orders, flag parsing, option validation
  - `emit.rs`: walk items, the root's own entry, timestamps, records,
    counting, the stable sort by name, and the record of what an engine
    reported, from which each walk's output is stated
  - `walkdir_backend.rs`, `jwalk_backend.rs`, `dua_backend.rs`,
    `ignore_backend.rs`: each engine's rules (what to yield, what not to
    enter), the settings handed to the engine, and a walker that applies
    the rules to what the engine reports
  - `zlob_backend.rs`: the zlob engine's rules
  - `sys.rs`: file metadata conversion
  - `laws.rs`: properties of the library as a whole
- `app/` — the plugin: nushell command, streaming threads, value conversion,
  reading the root's metadata, and the plumbing of the custom jwalk walker
  and the parallel ignore walk around the library's rules
- `tests/` — walks of a small fixture tree with every engine, and the rules
  on concrete values
