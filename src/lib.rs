//! A parser for a small subset of CSS, with a model of the parsed rules and of
//! the DOM nodes that later stages match them against.
pub mod css;
pub mod text;
pub mod values;
pub mod css_parser;
pub mod dom;
pub mod blocks;
pub mod render;
