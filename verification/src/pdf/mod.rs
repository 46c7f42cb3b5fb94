//! Reading text out of PDF documents.

pub mod cmap;
pub mod codecs;
pub mod content;
pub mod document;
pub mod encoding;
pub mod filters;
pub mod glyphs;
pub mod lexer;
pub mod lines;
pub mod num;
pub mod object;
pub mod objects;
pub mod pages;
pub mod render;
pub mod sound;
pub mod syntax;
pub mod token;
