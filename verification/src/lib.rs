//! A small file browser: the verified core of its request handlers.
//!
//! The library holds what the web application decides: how a path on disk
//! is split into components and breadcrumbs, which name and extension a file
//! record gets, which MIME type a media response carries, where a thumbnail
//! is cached, and how the tag set of a file is edited.

pub mod paths;
pub mod routes;
pub mod text;
pub mod types;
pub mod utils;
