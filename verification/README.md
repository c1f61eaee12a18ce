# Papyrus language server

A language server for Bethesda's Papyrus scripting language (Skyrim,
Fallout 4, Starfield), whose analyses are written in Verus and proved
against their contracts.

- `src/` is the verified library: text and line indexing, structural and
  syntax diagnostics, the semantic model read from a syntax tree
  (declarations, occurrences, calls, member accesses, type-check sites,
  symbols), name resolution across the workspace, type compatibility and
  semantic diagnostics, hover, references, signature help, completion,
  rename with its post-edit validation, configuration, paths and URIs, the
  decisions of the indexing session and the budgets of a workspace walk,
  the preparation of a Starfield workspace (Creation Kit lookup, archive
  entry planning and cache reuse), and the rules of the semantic index
  cache (record reuse, generation names and pruning, the bounded
  serialization buffer).
- `app/` is the executable around it: the LSP connection, the Tree-sitter
  parser, file-system scanning, the Steam and archive I/O of Creation Kit
  discovery, reading and writing the cache's generation files, and the
  background indexing worker.
- `tests/` exercises the library on concrete inputs.
