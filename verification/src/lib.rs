//! The library behind `skwd-lens`, a local semantic image search.
//!
//! It reads and writes the embedding index, plans index builds, prepares query tokens, ranks
//! results and manages installed model packs. Floating-point values are carried as their bit
//! patterns; files, models and standard streams are left to the program around it.

pub mod argument_laws;
pub mod base64;
pub mod bytes;
pub mod character_map;
pub mod cli;
pub mod failure;
pub mod guard_laws;
pub mod index;
pub mod index_laws;
pub mod index_writer;
pub mod json;
pub mod json_laws;
pub mod jsonl;
pub mod line_laws;
pub mod lines;
pub mod manifest;
pub mod memory;
pub mod merge_rules;
pub mod model_laws;
pub mod name_laws;
pub mod names;
pub mod onnx;
pub mod onnx_laws;
pub mod pack;
pub mod path;
pub mod path_laws;
pub mod pattern;
pub mod pattern_laws;
pub mod piece_laws;
pub mod piece_model;
pub mod pixel_laws;
pub mod pixels;
pub mod planning;
pub mod planning_laws;
pub mod query;
pub mod ranking;
pub mod ranking_laws;
pub mod reader_laws;
pub mod refusal_laws;
pub mod search;
pub mod selection;
pub mod semantic_index;
pub mod sort;
pub mod tables;
pub mod text;
pub mod text_laws;
pub mod tokenizer_file;
pub mod tokenizer_laws;
pub mod tokens;

pub use index::{
    read_index_fingerprints, read_index_header, validate_index, IndexEntry, IndexHeader, IndexReader,
    INDEX_MAGIC, MAX_INDEX_STRING_BYTES,
};
pub use jsonl::write_json_line;
pub use names::{cache_index_name, manifest_identity};
pub use search::{
    BuildEntry, BuildProgress, BuildRequest, ImageView, Match, SearchRequest, SearchResponse,
    PROTOCOL_VERSION,
};
pub use tables::{TEXT_PROJECTION_MAGIC, TOKEN_EMBEDDING_MAGIC};
