//! A typing tutor's core: wrapping source lines into fixed-width chunks,
//! normalizing a chunk into the text to type, matching keystrokes against it,
//! and scoring an attempt on speed and accuracy.

mod text;

pub mod normalize;
pub mod pad;
pub mod practice;
pub mod score;
pub mod wrap;
