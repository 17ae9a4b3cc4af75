//! What the operations of the library are for: relations between what goes in
//! and what comes out.

pub mod conformance;
pub mod content;
pub mod documents;
pub mod encodings;
pub mod filters;
pub mod glyphs;
pub mod hierarchy;
pub mod images;
pub mod inline_images;
pub mod labels;
pub mod layers;
pub mod lzw;
pub mod name_trees;
pub mod navigation;
pub mod numbers;
pub mod objects;
pub mod pages;
pub mod reading_order;
pub mod refusals;
pub mod resources;
pub mod signatures;
pub mod streams;
pub mod texts;
pub mod tiff;
pub mod tokens;
