//! A catalog of media files: indexing decisions, safe single-file
//! resolution, filtered, sorted, paginated listings, and the cookie check
//! in front of them.
pub mod auth;
pub mod catalog;
pub mod index;
pub mod listing;
pub mod order;
pub mod resolve;
pub mod size;
pub mod text;
