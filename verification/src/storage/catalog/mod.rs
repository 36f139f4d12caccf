//! The Local Catalog of committed Part files.

pub mod catalog;
