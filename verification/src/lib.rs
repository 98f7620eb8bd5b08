//! Verified core of a personal knowledge keeper: a metadata store with a
//! tag index, an offline-copy store, and the decisions of its daemon.

pub mod text;
pub mod strset;
pub mod tagmap;
pub mod web;
pub mod meta;
pub mod error;
pub mod request;
pub mod file_store;
pub mod offline_store;
pub mod store_laws;
pub mod status;
pub mod response;
pub mod adapter;
pub mod paths;
pub mod config;
pub mod settings;
pub mod models;
pub mod daemon;
pub mod pipeline;
pub mod summary;
