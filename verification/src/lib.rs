//! Verified core of a local research service that drives ChatGPT through Chrome.
pub mod api;
pub mod browser;
pub mod capture;
pub mod chat;
pub mod config;
pub mod json;
pub mod laws;
pub mod links;
pub mod observation;
pub mod observe;
pub mod reads;
pub mod records;
pub mod store;
pub mod text;
pub mod transcripts;
pub mod worker;
