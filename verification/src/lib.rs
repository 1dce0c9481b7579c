//! Longest-common-subsequence diffing of token sequences.
//!
//! The crate builds the dynamic-programming table of common-subsequence
//! lengths for two token sequences and walks it back into an edit script of
//! keep, insert and delete operations.  Every executable function carries a
//! contract over the mathematical definitions in [`lcs`] and [`script`], and
//! the laws that every script obeys are proved there.
//!
//! - [`token`]: what a token has to offer.
//! - [`lcs`]: the table and the lengths it holds.
//! - [`script`]: the walk back through the table, and its laws.
//! - [`text`]: characters and words as tokens, scripts as signed lines.
//! - [`content`], [`differ`], [`lev`]: diffs of whole texts.
//!
//! One fact is taken on trust: that `String::push` appends a character.

pub mod token;
pub mod lcs;
pub mod script;
pub mod text;
pub mod content;
pub mod differ;
pub mod lev;

pub use crate::content::{compute_lcs_string_dp, Config, Content};
pub use crate::differ::Differ;
pub use crate::lcs::{compute_lcs_len_recursive, compute_lcs_matrix_dp};
pub use crate::script::{diff, reconstruct, Operation};
pub use crate::token::Token;
