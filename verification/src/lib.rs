//! Any URL to clean Markdown: the verified core.
pub mod strs;
pub mod text;
pub mod parser;
pub mod numfmt;
pub mod downloader;
pub mod weburl;
pub mod strmap;
pub mod error;
pub mod fetcher;
pub mod adapter;
pub mod router;
pub mod html;
pub mod extract;
pub mod weixin;
pub mod generic;
pub mod adapters;
pub mod pipeline;
pub mod cli;
pub mod spike;
pub mod cmd;
