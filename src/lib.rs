//! A template filter that inverts a color written as text, keeping the
//! notation it was written in.

pub mod color;
pub mod filter;
pub mod laws;
pub mod parse;
pub mod render;
pub mod scan;
