# morphir_core

Core model of the Morphir IR, version 4, with its contracts proved by Verus.

## Layout

- `src/` — the library. Its functions are verified, except the few small wrappers marked
  `external_body` that call `std`, `serde_json`, `sha2` or `granit-parser`, whose contracts are
  trusted:
  - `naming` — names, paths, fully qualified names, their canonical spellings, their JSON
    spellings (canonical strings and legacy word arrays) and file stems;
  - `node_address` — canonical node URIs, their parsing and spelling, node fingerprints;
  - `json` — the JSON values the library reads and writes, canonical JSON bytes;
  - `ir` — diagnostics, the v4 model (types, values, patterns, literals, definitions,
    modules and packages with their public specifications, access, distributions, the legacy
    spelling window, document-tree file names), the v4 JSON writer for types, patterns,
    literals, values and value definitions, the v4 readers for names, FQNames and the
    document root, authored metadata containers, and the YAML
    profile reader with its scalar spellings;
  - `metadata` — document identities, assertions and their source claims, expanded facts,
    context expansion and resolution over supplied resources, and predicate declarations;
  - `migration` — migration diagnostics and reports;
  - `format_version` — release triplets;
  - `text` — the character-level operations the rest is built from.
- `tests/` — tests of the library on concrete values.
- `app/` — what the library leaves to ordinary Rust: JSON parsing and printing with
  `serde_json` (context resources are parsed there, refusing duplicate members), serde forms of the
  metadata records, the process-wide word interner, and error types that implement
  `Display`.
