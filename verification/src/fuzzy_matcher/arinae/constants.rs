//! Scoring constants of the matcher.
use vstd::prelude::*;

verus! {

/// Score of one DP cell.
pub type Score = i16;

/// Points awarded for each correctly matched character.
pub const MATCH_BONUS: Score = 18;

/// Extra bonus when the match is at position 0 of the choice string.
pub const START_OF_STRING_BONUS: Score = 12;

/// Extra bonus when the match follows a word separator.
pub const START_OF_WORD_BONUS: Score = 8;

/// Extra bonus for a camelCase transition.
pub const CAMEL_CASE_BONUS: Score = 6;

/// Bonus for each additional consecutive matched character.
pub const CONSECUTIVE_BONUS: Score = 8;

/// Cost to open a gap (skip characters in choice).
pub const GAP_OPEN: Score = 6;

/// Cost to extend a gap by one more character.
pub const GAP_EXTEND: Score = 2;

pub const TYPO_PENALTY: Score = 4;

/// Penalty for aligning a pattern char to a different choice char (typos only).
pub const MISMATCH_PENALTY: Score = 12;

/// Maximum pattern length supported by the banding arrays.
pub const MAX_PAT_LEN: usize = 16;

/// Bandwidth slack for typo-mode banding: a band of `n + TYPO_BAND_SLACK`
/// columns around the diagonal.
pub const TYPO_BAND_SLACK: usize = 4;

} // verus!
