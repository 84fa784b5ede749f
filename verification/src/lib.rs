//! Heuristic sentence segmentation with batched, ordered ingestion.
//!
//! A raw line is cleaned by [`normalizer::normalize`], cut into sentences by
//! [`segmenter::split_into_sentences`], and the sentences are gathered into
//! bounded batches by [`batch::BatchAccumulator`]. Every function carries a
//! contract over the characters of its input, viewed as a `Seq<char>`.

pub mod charclass;
pub mod text;
pub mod validity;
pub mod segmenter;
pub mod normalizer;
pub mod batch;

pub use crate::batch::{BatchAccumulator, SentenceRecord, DEFAULT_BATCH_SIZE};
pub use crate::normalizer::normalize;
pub use crate::segmenter::{is_sentence_boundary, split_into_sentences};
pub use crate::validity::is_valid_sentence;
