//! Rendering cache and document index of a small publishing site: when a
//! cached render may be served, how concurrent renders of one document are
//! collapsed, how the index of a directory is gathered and throttled, and how
//! searches filter, order and cut it.

pub mod bounds;
pub mod cache;
pub mod date;
pub mod error;
pub mod feed;
pub mod frontmatter;
pub mod index;
pub mod meta;
pub mod search;
pub mod site;
pub mod text;
