//! A reader for the PDF file format: tokens, objects, stream filters, and
//! the document structures that hang off the catalogue.

pub mod content;
pub mod crypt;
pub mod describe;
pub mod destination;
pub mod document;
pub mod encoding;
pub mod error;
pub mod filters;
pub mod hierarchy;
pub mod image_decode;
pub mod images;
pub mod info;
pub mod inline_images;
pub mod laws;
pub mod layout;
pub mod lex;
pub mod linearize;
pub mod link;
pub mod named_dest;
pub mod nametree;
pub mod number;
pub mod objects;
pub mod ocg;
pub mod outline;
pub mod page;
pub mod page_labels;
pub mod pages;
pub mod parse;
pub mod pdfa;
pub mod resources;
pub mod sig;
pub mod stream;
pub mod text;
pub mod textstring;
pub mod xref;
