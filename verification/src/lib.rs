//! Read-only Reddit client logic.

pub mod actions;
pub mod address;
pub mod atom;
pub mod backfill;
pub mod cache;
pub mod cli;
pub mod config;
pub mod digest;
pub mod error;
pub mod json;
pub mod listing;
pub mod model;
pub mod number;
pub mod order;
pub mod parse;
pub mod plan;
pub mod rank;
pub mod render;
pub mod resolve;
pub mod store;
pub mod sync;
pub mod text;
pub mod thread;
pub mod transport;
pub mod web;
