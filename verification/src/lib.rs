//! Dice notation: parsing of `<count>d<sides>` tokens, rolling against a
//! random source, and rendering of the results as text lines.
//!
//! * [`die`]: the catalog of the supported dice.
//! * [`parser`]: from one token to a roll request or a failure.
//! * [`roll`]: from a request and a random source to a result.
//! * [`format`]: from a result to its line of text.
//! * [`batch`]: from a whole text to the failures and results of its tokens.
//! * [`tokens`], [`text`], [`error`]: what the others stand on.
//!
//! Text is modelled as `Seq<char>`, the view of `str` and `String`. Each
//! executable function states what it returns over that model; the proof
//! functions named `lemma_..` state what holds between them.

pub mod batch;
pub mod die;
pub mod error;
pub mod format;
pub mod parser;
pub mod roll;
pub mod text;
pub mod tokens;
