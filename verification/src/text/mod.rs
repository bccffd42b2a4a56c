//! Small helpers over text.

pub mod chars;
