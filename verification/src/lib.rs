//! Verified core of a client for the Indonesia Stock Exchange's listed-company
//! disclosure feed.

pub mod api;
pub mod browser;
pub mod download;
pub mod filters;
pub mod http;
pub mod script;
pub mod server;
pub mod text;
pub mod watch;

pub use api::{announcement_query, ApiResponse, AttachmentInfo, Pengumuman, QueryParams, Reply};
pub use download::{build_download_tasks, dest_filename, DownloadTask};
