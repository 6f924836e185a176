//! An interpreter for a small statically typed language.
//!
//! `parser` turns source text into a syntax tree, `vm` evaluates the tree's
//! `main` function, and `compiler` writes assembly text for the part of the
//! language that the native backend covers.

pub mod compiler;
pub mod parser;
pub mod text;
pub mod vm;
