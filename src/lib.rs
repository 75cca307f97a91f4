//! Compiles a book recipe into the parts of an EPUB2 package: the entries of
//! the archive in order, and models of the container, OPF and NCX documents,
//! after checking every path, identifier and reference of the recipe.

pub mod config;
pub mod metadata;
pub mod ncx;
pub mod opf;
pub mod package;
pub mod paths;
pub mod text;
pub mod validate;
