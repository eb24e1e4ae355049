//! Title analysis for NicoNico videos: rule-based song-title extraction,
//! BIO tagging of titles, character features for sequence labelling, and
//! character n-gram utilities for the cover-song classifier.

pub mod text;
pub mod analyze;
pub mod analyze_results;
pub mod annotate;
pub mod bio;
pub mod classifier;
pub mod compare;
pub mod crf;
pub mod dataset;
pub mod download;
pub mod extract;
pub mod features;
pub mod interner;
pub mod ngram;
pub mod unicode;
