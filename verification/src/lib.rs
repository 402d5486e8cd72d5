//! Naive substring search over Unicode scalar values.
//!
//! A *shift* is an offset into the text, counted in `char`s from zero. A shift
//! is *valid* for a pattern when the pattern, slid that far to the right, still
//! lies within the text and each of its characters equals the text character
//! under it. The empty pattern is therefore valid at every shift from zero up
//! to and including the length of the text, and a pattern longer than the text
//! at none.
//!
//! [`naive_string_matcher`] returns every valid shift in ascending order.
//! [`naive_string_matcher_special_pattern`] does the same for patterns whose
//! characters are pairwise distinct, and skips ahead after each match.
//!
//! Characters are compared as `char` values: no normalisation is applied and
//! grapheme clusters are not taken into account.
//!
//! The module [`shifts`] holds the mathematical model that the contracts of the
//! matchers are stated over, and [`laws`] what is proved of it.

pub mod shifts;
pub mod lemmas;
pub mod laws;
pub mod matcher;

pub use matcher::{naive_string_matcher, naive_string_matcher_special_pattern};
