//! A small Scheme interpreter: a reader for Scheme source text, an evaluator
//! for a core of the language, and the rendering of the values it produces.

pub mod scheme;
