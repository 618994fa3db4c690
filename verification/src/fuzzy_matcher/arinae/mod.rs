//! Building blocks of the Smith-Waterman style matcher: character atoms,
//! scoring constants, the packed DP cell and the typo pre-filter.
pub mod atom;
pub mod constants;
pub mod matrix;
pub mod prefilter;
