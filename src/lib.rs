//! Conversion of Aozora Bunko annotated text into plain readable text.
//!
//! The `tokenizer` module turns one unit of annotated text into a tree of
//! tokens, the `extractor` module flattens that tree back into the visible
//! text, `gaiji` resolves glyph references, `document` picks the body lines
//! of a whole document, and `char_type` classifies single characters.
pub mod char_type;
pub mod document;
pub mod extractor;
pub mod gaiji;
mod text;
pub mod token;
pub mod tokenizer;
