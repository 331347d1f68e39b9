//! A verified core for a website-mirroring tool.
//!
//! The crate maps remote URLs to sanitized local file paths, classifies and
//! extracts resource references from HTML and CSS text, decides which
//! references to fetch, rewrites document text to point at local copies
//! (optionally translating image extensions to WebP), and keeps the
//! visited-set and download ledger that make every fetch happen at most once.
//! Network transfer, file writes and image re-encoding are left to the caller.

pub mod cli;
pub mod downloader;
pub mod error;
pub mod extract;
pub mod file_manager;
pub mod html_parser;
pub mod paths;
pub mod resource;
pub mod rewrite;
pub mod store;
pub mod text;
pub mod urls;

pub use cli::MirrorCommand;
pub use downloader::WebsiteMirror;
pub use error::MirrorError;
pub use file_manager::FileManager;
pub use html_parser::HtmlParser;
pub use resource::{DownloadPriority, DownloadTask, ResourceLink, ResourceType};
pub use store::PersistentStore;
