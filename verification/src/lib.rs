//! Metadata resolution and library reconciliation engine for an episodic
//! torrent-release feed: title parsing, multi-source identity resolution with
//! permanent caching, season-name matching, and incremental reconciliation of
//! a per-season media library.

pub mod app_model;
pub mod cache_store;
pub mod catalog;
pub mod config;
pub mod detail_page;
pub mod downloader;
pub mod errors;
pub mod feed;
pub mod json;
pub mod library;
pub mod resolver;
pub mod scrobbler;
pub mod season_matcher;
pub mod season_parser;
pub mod strutil;
pub mod title_parser;
