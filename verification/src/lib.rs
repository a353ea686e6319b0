//! Support library for a wiki-content build pipeline: make-friendly filename
//! escaping, plain-text extraction from a document tree, template-argument
//! lookup, and a bounded memoizing front end for an external formula checker.

mod checker;
mod filename;
mod tree;

pub use checker::CachedTexChecker;
pub use checker::CheckerFailure;
pub use checker::TexChecker;
pub use checker::TexResult;
pub use checker::classifiable;
pub use checker::classifies;
pub use checker::classify_output;
pub use checker::distinct_keys;
pub use checker::entries_of;
pub use checker::evict_prefix;
pub use checker::lemma_eviction_bound;
pub use checker::lemma_evict_prefix_len;
pub use checker::lemma_evict_prefix_props;
pub use checker::lemma_insert_wf;
pub use checker::lemma_lookup_none_iff;
pub use checker::lemma_lookup_push;
pub use checker::lemma_path_change_keeps_cache;
pub use checker::lemma_recorded_result_found;
pub use checker::spec_insert;
pub use checker::spec_lookup;
pub use checker::spec_lookup_from;
pub use filename::escape_char;
pub use filename::escape_seq;
pub use filename::filename_to_make;
pub use tree::Element;
pub use tree::arg_matches;
pub use tree::extract_plain_text;
pub use tree::find_arg;
pub use tree::lower_of;
pub use tree::name_views;
pub use tree::plain_text_from;
pub use tree::plain_text_of;
pub use tree::spec_find_arg;
pub use tree::trim_of;
