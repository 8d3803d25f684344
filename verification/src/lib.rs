//! A photo album server's logic: album settings and cache bookkeeping, photo
//! ordering, Markdown rendering, request routing and static file naming.
pub mod album;
pub mod cache;
pub mod collections;
pub mod config;
pub mod digest;
pub mod image;
pub mod markdown;
pub mod page;
pub mod photos;
pub mod routes;
pub mod serve_static;
pub mod text;
