//! Verified core of the mcp-nano ingestion pipeline: text normalization,
//! comment stripping, chunk bookkeeping, and the small decision functions
//! used by the ingestion, crawl and RAG services.
pub mod text;
pub mod chunk_helpers;
pub mod spans;
pub mod seqtext;
pub mod normalize;
pub mod chunk_types;
pub mod code_chunk;
pub mod languages;
pub mod ingest;
pub mod embedders;
pub mod settings;
pub mod jobs;
pub mod web;
pub mod pagetext;
pub mod sections;
pub mod scrape;
pub mod sql;
pub mod imports;
pub mod chunk_make;
pub mod bm25;
pub mod patterns;
pub mod sql_split;
pub mod metadata;
pub mod document;
pub mod weburl;
pub mod pagelinks;
pub mod xmltext;
pub mod loaders;
pub mod syntax;
pub mod java_chunks;
pub mod rust_chunks;
pub mod crawl;
pub mod c_chunks;
pub mod cpp_chunks;
pub mod js_chunks;
pub mod sql_tree;
pub mod csharp_chunks;
pub mod python_chunks;
pub mod code_files;
pub mod react_chunks;
pub mod webdocs;
pub mod dom;
pub mod filters;
