//! A lazy, zero-copy string splitter.
//!
//! [`StrSplit`] walks a borrowed haystack and hands out the pieces that lie
//! between occurrences of a delimiter, never copying any text: every segment
//! is a subslice of the original input. A delimiter is anything that can
//! locate itself inside a text view (see [`Delimiter`]); the crate provides
//! implementations for a literal `&str` pattern and for a single `char`.

mod laws;
mod matcher;
mod split;

pub use laws::join_with;
pub use laws::lemma_reconstruction;
pub use laws::lemma_split_finite;
pub use laws::lemma_trailing_delimiter;
pub use laws::overlap_free;

pub use matcher::found_at;
pub use matcher::first_found_from;
pub use matcher::locate_spec;
pub use matcher::lemma_first_found_from;
pub use matcher::Delimiter;
pub use split::lemma_split_at_least_one;
pub use split::split_spec;
pub use split::until_char;
pub use split::StrSplit;
