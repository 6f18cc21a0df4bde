# naive

The verified core of the nAIVE game engine, written in Verus.

- `src/` — the library. Every function carries a `requires`/`ensures`
  contract that Verus proves; the public proof functions state the laws the
  library keeps (every pass that writes a resource runs before its readers,
  input injection, event log bounds, listener dispatch and removal, tag
  operations, material cache lookups, GLB lengths, size strings read back).
- `tests/` — tests run against the compiled library.
- `app/` — the `naive` program: command-line parsing, YAML and JSON reading,
  file and network I/O, and the floating-point parts (vertex data, animation
  sampling) around the library.
