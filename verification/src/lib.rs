//! Verified core of a BMS chart downloader: path and text handling,
//! chart analysis, archive organisation, page scraping and the download
//! decision logic. Network and file-system effects live outside this crate;
//! the functions here decide what those effects should be.

pub mod text;
pub mod path;
pub mod extract;
pub mod organize;
pub mod hashing;
pub mod analyze;
pub mod validation;
pub mod pattern;
pub mod filename;
pub mod provider;
pub mod parser;
pub mod table;
pub mod download;
pub mod event;
pub mod url;
pub mod html;
pub mod sjis;
pub mod song;
pub mod merge;
pub mod store;
pub mod cli;
