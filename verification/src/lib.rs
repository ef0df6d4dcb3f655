//! Rendering core of a whole-codebase cross-reference search engine.
//!
//! The library fuses four position-indexed inputs (classified tokens,
//! semantic analysis records, per-line revision attribution and per-line
//! coverage counts) into per-line HTML with two JSON side tables, tracks a
//! stack of sticky nesting scopes, resolves bounded blame chains and
//! reconstructs text plus attribution across multi-parent diffs.

pub mod text;
pub mod numfmt;
pub mod json;
pub mod tokens;
pub mod analysis;
pub mod render;
pub mod blame;
pub mod filepage;
pub mod diff;
pub mod commit;
