//! Extraction of statically written style declarations from script sources.
//!
//! The library recognises `css({...})`, `globalCss\`...\`` and `keyframes\`...\``
//! sites in a syntax tree, lowers each one to CSS, and rewrites the site in the
//! source text to a short generated identifier.
pub mod text;
pub mod hash;
pub mod kebab;
pub mod position;
pub mod edits;
pub mod num;
pub mod render;
pub mod ast;
pub mod theme;
pub mod eval;
pub mod lower;
pub mod engine;
pub mod sites;
pub mod transform;
