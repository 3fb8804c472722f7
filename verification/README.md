# harald

Text chunking, naming-convention checks and ingestion helpers for the HARALD
semantic search tools, written in Verus: every function of the library
carries a contract, and Verus proves that the code meets it.

## Layout

- `src/text.rs`: characters, trimming, words, lines, substring search.
  Whitespace is decided here; letter classes and case mappings are exact for
  ASCII, and beyond ASCII are std's answers, reached through small trusted
  wrappers whose results are named.
- `src/paths.rs`: paths read as their components (file name, stem,
  extension, ends-with).
- `src/chunking.rs`: size-based, character-based (word packing) and semantic
  (paragraphs, sentences) chunking, with their laws: chunks concatenate back
  to the text, chunk lengths are bounded, word packing keeps every visible
  character, paragraphs rejoin to the text, and a text without paragraph or
  sentence breaks falls back to character-based chunks; also the lines the
  chunking command prints (JSON through serde_json, numbered, or plain).
- `src/naming.rs`: kebab-case, snake_case and TitleCase checks and
  conversions (converting an ASCII name twice changes nothing), and the
  per-entry checks of directories, Rust, Markdown and JSON files.
- `src/audit.rs`: the interactive audit's per-entry checks and fixes.
- `src/ingest/`: chunking of entity fields, JSON Lines validation (through
  serde_json), character entry checks, and the decisions of the file
  ingestion pipeline.
- `src/status.rs`: reading the replies of the system status checks.
- `app/`: directory walks, renames, process and HTTP calls, JSON decoding,
  the HNSW index and terminal output.
- `tests/`: tests of the library on concrete values.
