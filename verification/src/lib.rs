//! Anonymizes personally identifiable content inside SQL dump files.
//!
//! A tree query locates byte spans to redact; each span is replaced by
//! synthetic content chosen by a named directive, and every byte outside
//! the targeted spans streams through unchanged. The library holds the
//! directive set, the literal-string codec, the capture-text cache, the
//! synthetic-content generators and the order-preserving rewrite driver;
//! file handling and the tree parser live with the caller.

pub mod cache;
pub mod codec;
pub mod directive;
pub mod order;
pub mod replace;
pub mod rewrite;
pub mod synth;
