# sloper_extension

Rules of Sloper extensions, as verified Rust: how a WebAssembly component carries its
manifest, which releases a host trusts, what an action may do while it runs, how a local
run keeps and exports its state, and what the declarations of the authoring macros mean.

## Layout

- `src/` is the library. Every function states its result in a contract that Verus proves.
  - Components: `envelope`, `component`, `assembly`, `binary`, `world`, `manifest`, `admission`.
  - Releases: `release`, `publication`, `identity`, `primitives`.
  - Attempts: `request`, `attempt`, `limits`, `streams`, `logs`, `redact`, `host`.
  - Local runs: `inputs`, `supply`, `sources`, `store`, `sealing`, `completion`, `working`,
    `receipt`, `runner`.
  - Declarations: `attributes`, `constraints`, `schema`, `derive`, `declaration`, `naming`.
  - Authoring: `compile`, `icon`, `scaffold`, `provenance`, `paths`, `command`, `tool`.
  - Data: `json`, `table`, `text`.
- `tests/` runs the library on concrete values.
- `app/` is the command-line program around it: arguments, files, processes, the network and
  the runtime that executes components. The extension specification, the component engine
  and the commands of the publication service are linked to the program through
  `app/platform.rs`.

## Trust

What other crates compute (hashes, signatures, encodings, JSON text, WIT resolution, PNG
decoding) enters through small functions marked `external_body`, next to the name that their
result is given. Everything else is proved. Public proof functions named `law_*` state what
holds across several functions.
