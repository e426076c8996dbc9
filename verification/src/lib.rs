//! Scraping the App Store: its top applications, and their customer reviews.
//!
//! The library reads feeds, decides what to fetch and what to save next, and makes the rows that
//! are saved. Requests, the database and the metrics are up to its caller.
pub mod app_version;
pub mod entry;
pub mod error;
pub mod feeds;
pub mod nodes;
pub mod pull;
pub mod records;
pub mod review;
pub mod scrape;
pub mod tables;
pub mod text;
pub mod timestamp;
pub mod xml;
