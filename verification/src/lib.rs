//! Request routing, directory listing and configuration logic of a static
//! site server, with the decisions of each request stated and proved.

pub mod text;
pub mod patterns;
pub mod config;
pub mod content;
pub mod headers;
pub mod listing;
pub mod handler;
pub mod resolve;
pub mod cli;
pub mod banner;
pub mod auth;
pub mod ranges;
