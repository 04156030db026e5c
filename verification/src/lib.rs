//! An interactive fuzzy-finder core: an incremental fuzzy-match indexing and
//! ranking pipeline, together with the query-editing, debounce, batching and
//! selection state machines that drive it.
//!
//! The pipeline turns a stream of text lines and a stream of query edits into
//! a bounded, ranked result buffer: the matcher finds greedy case-insensitive
//! subsequence matches, the bucket index groups matched lines by a clamped
//! tightness score, the indexer rebuilds the index when the query changes, and
//! the selection controller maps the ranked results onto a fixed-height
//! viewport.

pub mod index;
pub mod indexer;
pub mod input;
pub mod matcher;
pub mod text;
pub mod types;
pub mod view;
