//! Decomposition of Hangul syllables into jamo, their romanization, and a
//! small set of sound-change rules between adjacent syllables.
pub mod tables;
pub mod rules;
pub mod hangul;
