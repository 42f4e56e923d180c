//! A library for scraping files from a source directory tree into a mirrored
//! target directory tree: filters on file extension and folder name decide
//! which entries are copied, a path mapper rebases each source path onto the
//! target root, a traversal engine gathers the candidate entries, and the
//! copy outcomes are aggregated into a best-effort batch summary.
pub mod config;
pub mod copying;
pub mod filter;
pub mod paths;
pub mod text;
pub mod traverse;
