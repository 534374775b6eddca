//! A compiler for a music-macro notation: a lexer that turns source text into
//! tokens, and a single-pass encoder that turns tokens into the byte stream of a
//! playback driver (a table of 16-bit channel offsets, then the channels'
//! instructions). Each executable function is proved against the spec functions
//! of `model`, `lexer` and `encoding`; `laws` states the general properties.
pub mod args;
pub mod token;
pub mod text;
pub mod encoding;
pub mod error;
pub mod model;
pub mod compiler;
pub mod lexer;
pub mod laws;
