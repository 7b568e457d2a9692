//! Forbidden and limited card lists of the Yu-Gi-Oh! World Championship:
//! parsing the lists, resolving card names to IDs, ordering the lists,
//! and generating the documents that present them.

pub mod text;
pub mod lf;
pub mod json;
pub mod cards;
pub mod paths;
pub mod years;
pub mod limits;
pub mod site;
pub mod render;
pub mod archive;
pub mod images;
pub mod upstream;
pub mod workspace;
pub mod download;
pub mod staging;
pub mod assembly;
