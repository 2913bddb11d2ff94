//! An index over a catalog of vector icons: extraction of icon records from
//! generated source text, exact lookup, ranked search and usage snippets.

pub mod categories;
pub mod engines;
pub mod extract;
pub mod generator;
pub mod icon_index;
pub mod svg_source;
pub mod text;
pub mod tools;
pub mod types;
