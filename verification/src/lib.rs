//! Verified core of rss2pan: turning RSS feeds into magnet links, building
//! the offline-download requests for 115, and the RSA framing that the
//! 115 client protocol uses.

pub mod m115;
pub mod db;
pub mod form;
pub mod json;
pub mod request;
pub mod rss_config;
pub mod rss_site;
pub mod text;
pub mod utils;
pub mod yiyiwu;
