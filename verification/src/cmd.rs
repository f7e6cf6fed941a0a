//! The decisions behind the `md` and `serve` subcommands.
pub mod md;
pub mod serve;
