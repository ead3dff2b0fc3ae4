# mcp_nano

The verified core of an ingestion pipeline for a retrieval service, written
in Verus. Every executable function in `src/` carries a `requires`/`ensures`
contract that Verus proves; calls into outside crates (tree-sitter grammars,
the HTML parser, URL parsing, regular expressions, hashing, CSV/XML readers)
sit behind small trusted wrappers whose contracts name or state what those
crates return.

Layout:

- `text`, `seqtext`, `normalize`, `chunk_helpers`, `spans`: text utilities,
  comment stripping, code normalization and span arithmetic.
- `syntax` and the per-language chunkers (`java_chunks`, `rust_chunks`,
  `c_chunks`, `cpp_chunks`, `js_chunks`, `react_chunks`, `csharp_chunks`,
  `python_chunks`, `sql_tree`, `sql`, `sql_split`): source files split into
  code chunks over the syntax trees tree-sitter builds.
- `code_chunk`, `chunk_types`, `chunk_make`, `metadata`, `code_files`,
  `document`: chunk records, their metadata and embedding text.
- `dom`, `scrape`, `sections`, `pagelinks`, `pagetext`, `web`, `webdocs`,
  `weburl`, `xmltext`, `crawl`: web pages read into sections, links and
  sitemaps; the crawl's decisions as a state machine (which page to fetch
  next, what a fetched page adds, when to stop), which a caller drives by
  fetching pages and handing them back; pages turned into document chunks.
- `loaders`, `ingest`, `bm25`, `embedders`, `settings`, `jobs`, `patterns`,
  `imports`, `languages`: document loading, ingestion decisions, sparse
  tokenization and service settings.
- `filters`: search filters built from JSON `where` clauses, the
  per-collection requests of a tool's scopes, and the batch plan of an
  upsert.

`tests/` holds ordinary Rust tests run against the compiled library.
