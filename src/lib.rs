//! Catalog synchronization for a chapter-feed mirror: the chapter model and its
//! reconciliation, paginated feed merging, catalog maintenance and the archive format.
pub mod archive;
pub mod catalog;
pub mod chapter;
pub mod feed;
pub mod getter;
pub mod json;
pub mod lifecycle;
pub mod naming;
pub mod reconcile;
pub mod resolute;
pub mod text;
