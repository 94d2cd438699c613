//! Tokenizer and recursive document grammar for a sigil-driven markup
//! language: prose mixed with annotations `@@( .. )`, items `@@name( .. )`,
//! verbatim blobs between `@@@` fences, and named blocks `@name .. @end`,
//! `@name( .. )` and `@name{ .. }`.
use vstd::prelude::*;

pub mod text;
pub mod token;
pub mod tree;
pub mod parser;

pub use token::{tokenize, tokenize_chars, LexError, Spanned, Token, TokenKind};
pub use tree::{
    Annotated, Annotation, Atom, Blob, Block, BlockStyle, Delimiter, Element, Entity, Item, Raw, Top,
};
pub use parser::{
    parse, parse_annotation, parse_annotation_text, parse_text, Expected, Frame, ParseError,
    MAX_DEPTH,
};

verus! {

} // verus!
